use vstd::prelude::*;

use crate::bird_config::{BirdConfig, CONFIG_LIMIT};
use crate::spatial::{SpatialIndex, COORD_LIMIT};
use crate::sums::{
    lemma_range_sum_agree, lemma_range_sum_swap, lemma_range_sum_zero, lemma_seq_sum_covers, range_sum,
    seq_sum, swapped,
};
use crate::vector::{
    clamp_magnitude, clamped, dist_sq, div_trunc, in_box,
    lemma_div_trunc_bound, lemma_scale_div_box, norm_sq, scale_div, vadd, vsub, with_length, Vec2, SCALE,
};

verus! {

/// Largest arena width or height a tick accepts.
pub const ARENA_LIMIT: i64 = 268435456;

/// Largest time step a tick accepts.
pub const STEP_LIMIT: i64 = 65536;

/// How far a single tick can move a bird along either axis.
pub const MOVE_LIMIT: i64 = 134217728;

/// One agent of the flock.
pub struct Bird {
    pub position: Vec2,
    pub velocity: Vec2,
    pub acceleration: Vec2,
    pub config_id: String,
}

impl Bird {
    /// Every vector of the bird lies within the range the spatial index holds.
    pub open spec fn bounded(&self) -> bool {
        &&& in_box(self.position@, COORD_LIMIT as int)
        &&& in_box(self.velocity@, COORD_LIMIT as int)
        &&& in_box(self.acceleration@, COORD_LIMIT as int)
    }
}

pub open spec fn all_bounded(snap: Seq<Bird>) -> bool {
    forall|j: int| 0 <= j < snap.len() ==> (#[trigger] snap[j]).bounded()
}

pub open spec fn positions(snap: Seq<Bird>) -> Seq<(int, int)> {
    snap.map_values(|b: Bird| b.position@)
}

/// `p` is a neighbour of a bird at `q` for radius `r`: at a positive
/// distance of at most `r`. A bird never counts itself.
pub open spec fn near(q: (int, int), p: (int, int), r: int) -> bool {
    0 < dist_sq(q, p) && dist_sq(q, p) <= r * r
}

/// The push away from a neighbour at `p`: the unit vector from `p` to `q`,
/// in thousandths.
pub open spec fn away(q: (int, int), p: (int, int)) -> (int, int) {
    with_length(vsub(q, p), SCALE as int)
}

/// What a neighbour contributes to an average.
pub enum Aggregate {
    /// The push away from it.
    Away,
    /// Its velocity.
    Heading,
    /// Its position.
    Place,
}

pub open spec fn term(kind: Aggregate, q: (int, int), b: Bird) -> (int, int) {
    match kind {
        Aggregate::Away => away(q, b.position@),
        Aggregate::Heading => b.velocity@,
        Aggregate::Place => b.position@,
    }
}

/// `f` of the bird at index `j` if it is a neighbour, else zero.
pub open spec fn near_term(snap: Seq<Bird>, q: (int, int), r: int, f: spec_fn(Bird) -> int) -> spec_fn(
    int,
) -> int {
    |j: int|
        if 0 <= j < snap.len() && near(q, snap[j].position@, r) {
            f(snap[j])
        } else {
            0
        }
}

/// The number of neighbours of `q` within `r`.
pub open spec fn near_count(snap: Seq<Bird>, q: (int, int), r: int) -> int {
    range_sum(snap.len() as int, near_term(snap, q, r, |b: Bird| 1int))
}

/// The sum of `kind`'s contribution over the neighbours of `q` within `r`.
pub open spec fn near_sum(snap: Seq<Bird>, q: (int, int), r: int, kind: Aggregate) -> (int, int) {
    (
        range_sum(snap.len() as int, near_term(snap, q, r, |b: Bird| term(kind, q, b).0)),
        range_sum(snap.len() as int, near_term(snap, q, r, |b: Bird| term(kind, q, b).1)),
    )
}

/// The mean of `kind`'s contribution over the neighbours of `q` within `r`,
/// rounding toward zero; zero when there are none.
pub open spec fn near_mean(snap: Seq<Bird>, q: (int, int), r: int, kind: Aggregate) -> (int, int) {
    let c = near_count(snap, q, r);
    if c == 0 {
        (0, 0)
    } else {
        (div_trunc(near_sum(snap, q, r, kind).0, c), div_trunc(near_sum(snap, q, r, kind).1, c))
    }
}

/// Steering toward `desired`: full speed along it, less the current
/// velocity, limited to the maximum force.
pub open spec fn steer(desired: (int, int), vel: (int, int), cfg: BirdConfig) -> (int, int) {
    clamped(vsub(with_length(desired, cfg.max_speed as int), vel), cfg.max_force as int)
}

pub open spec fn separation(snap: Seq<Bird>, q: (int, int), vel: (int, int), cfg: BirdConfig) -> (
    int,
    int,
) {
    let m = near_mean(snap, q, cfg.desired_separation as int, Aggregate::Away);
    if m == (0int, 0int) {
        (0, 0)
    } else {
        steer(m, vel, cfg)
    }
}

pub open spec fn alignment(snap: Seq<Bird>, q: (int, int), vel: (int, int), cfg: BirdConfig) -> (
    int,
    int,
) {
    let r = cfg.neighbor_distance as int;
    if near_count(snap, q, r) == 0 {
        (0, 0)
    } else {
        steer(near_mean(snap, q, r, Aggregate::Heading), vel, cfg)
    }
}

pub open spec fn cohesion(snap: Seq<Bird>, q: (int, int), vel: (int, int), cfg: BirdConfig) -> (
    int,
    int,
) {
    let r = cfg.neighbor_distance as int;
    if near_count(snap, q, r) == 0 {
        (0, 0)
    } else {
        steer(vsub(near_mean(snap, q, r, Aggregate::Place), q), vel, cfg)
    }
}

/// The acceleration of a bird after the three rules have acted on it.
pub open spec fn steered_acceleration(b: Bird, snap: Seq<Bird>, cfg: BirdConfig) -> (int, int) {
    let q = b.position@;
    let v = b.velocity@;
    let sep = scale_div(separation(snap, q, v, cfg), cfg.separation_multiplier as int, SCALE as int);
    let ali = scale_div(alignment(snap, q, v, cfg), cfg.alignment_multiplier as int, SCALE as int);
    let coh = scale_div(cohesion(snap, q, v, cfg), cfg.cohesion_multiplier as int, SCALE as int);
    clamped(vadd(vadd(vadd(b.acceleration@, sep), ali), coh), cfg.max_force as int)
}

/// The velocity after one step: `velocity += acceleration * dt^2 / 2`, then
/// limited to the maximum speed.
pub open spec fn stepped_velocity(b: Bird, snap: Seq<Bird>, cfg: BirdConfig, dt: int) -> (int, int) {
    let acc = steered_acceleration(b, snap, cfg);
    clamped(
        vadd(b.velocity@, scale_div(acc, dt * dt, 2 * SCALE * SCALE)),
        cfg.max_speed as int,
    )
}

/// The position after one step: `position += dt * velocity`.
pub open spec fn stepped_position(b: Bird, snap: Seq<Bird>, cfg: BirdConfig, dt: int) -> (int, int) {
    vadd(b.position@, scale_div(stepped_velocity(b, snap, cfg, dt), dt, SCALE as int))
}

/// `x` after the wrap rule along one axis of half extent `half` and margin `m`.
pub open spec fn wrap_axis(x: int, half: int, m: int) -> int {
    let x1 = if x + m < -half {
        half - m
    } else {
        x
    };
    if x1 > half {
        -half + m
    } else {
        x1
    }
}

/// Half the arena's extent plus a tenth on each side: `extent * 1.1 / 2`.
pub open spec fn half_extent(extent: int) -> int {
    extent * 11 / 20
}

/// The margin of a species: one and a half times its bird size.
pub open spec fn margin(cfg: BirdConfig) -> int {
    cfg.bird_size * 3 / 2
}

pub open spec fn wrapped(p: (int, int), cfg: BirdConfig, width: int, height: int) -> (int, int) {
    (
        wrap_axis(p.0, half_extent(width), margin(cfg)),
        wrap_axis(p.1, half_extent(height), margin(cfg)),
    )
}

/// Distance from an equilateral triangle's centre to a side, per unit of
/// side length, in thousandths: `1 / (2 * sqrt(3))`.
pub const INRADIUS_PER_SIDE: i64 = 289;

/// The cosine and sine, in thousandths, of the rotation that turns the
/// axis `(0, 1)` onto the direction of the velocity `v`: the rotation by
/// `(c, s)` maps `(0, 1)` to `(-s, c)`, which is `v` over its length. No
/// rotation for the zero velocity.
pub open spec fn heading(v: (int, int)) -> (int, int) {
    if norm_sq(v) == 0 {
        (SCALE as int, 0)
    } else {
        with_length((v.1, -v.0), SCALE as int)
    }
}

/// The corners of an equilateral triangle of side `size` centred on the
/// origin and pointing along `(0, 1)`, the first corner repeated at the end.
pub open spec fn corners(size: int) -> Seq<(int, int)> {
    let inr = size * INRADIUS_PER_SIDE / SCALE as int;
    seq![(0, 2 * inr), (-(size / 2), -inr), (size / 2, -inr), (0, 2 * inr)]
}

/// Corner `e` rotated by the heading `h` and moved to `p`.
pub open spec fn place(e: (int, int), h: (int, int), p: (int, int)) -> (int, int) {
    (
        p.0 + div_trunc(h.0 * e.0 - h.1 * e.1, SCALE as int),
        p.1 + div_trunc(h.1 * e.0 + h.0 * e.1, SCALE as int),
    )
}

pub open spec fn vertices(b: Bird, cfg: BirdConfig) -> Seq<(int, int)> {
    corners(cfg.bird_size as int).map_values(|e: (int, int)| place(e, heading(b.velocity@), b.position@))
}

/// `b` after the border rule of its species in a `width` by `height` arena.
pub open spec fn wrapped_bird(b: Bird, cfg: BirdConfig, width: int, height: int) -> Bird {
    let p = wrapped(b.position@, cfg, width, height);
    Bird {
        position: Vec2 { x: p.0 as i64, y: p.1 as i64 },
        velocity: b.velocity,
        acceleration: b.acceleration,
        config_id: b.config_id,
    }
}

proof fn lemma_mean_bound(s: int, c: int, b: int)
    requires
        c > 0,
        b >= 0,
        -c * b <= s <= c * b,
    ensures
        -b <= div_trunc(s, c) <= b,
{
    assert(c * b * 1 <= b * c) by (nonlinear_arith);
    assert(-c * b == -(c * b)) by (nonlinear_arith);
    assert(s * 1 == s);
    lemma_div_trunc_bound(s, 1, c, c * b, b);
}

impl Bird {
    /// A copy of this bird.
    pub fn duplicate(&self) -> (r: Bird)
        ensures
            r == *self,
    {
        Bird {
            position: self.position,
            velocity: self.velocity,
            acceleration: self.acceleration,
            config_id: self.config_id.clone(),
        }
    }

    /// `kind`'s contribution of the bird `b` as seen from this bird.
    fn term_of(&self, b: &Bird, kind: &Aggregate) -> (r: Vec2)
        requires
            self.bounded(),
            b.bounded(),
            near(self.position@, b.position@, CONFIG_LIMIT as int),
        ensures
            r@ == term(*kind, self.position@, *b),
            in_box(r@, COORD_LIMIT as int),
    {
        match kind {
            Aggregate::Away => self.position.minus(b.position).with_length(SCALE),
            Aggregate::Heading => b.velocity,
            Aggregate::Place => b.position,
        }
    }

    /// The count of neighbours within `radius`, and the mean of `kind`'s
    /// contribution over them (zero when there are none). `neighbors` lists
    /// indices into `snapshot`, each once, and names at least every neighbour.
    pub fn neighbor_mean(
        &self,
        neighbors: &Vec<usize>,
        snapshot: &Vec<Bird>,
        radius: i64,
        kind: Aggregate,
    ) -> (r: (Vec2, usize))
        requires
            self.bounded(),
            all_bounded(snapshot@),
            0 <= radius <= CONFIG_LIMIT,
            neighbors@.no_duplicates(),
            forall|i: int| 0 <= i < neighbors@.len() ==> #[trigger] neighbors@[i] < snapshot@.len(),
            forall|j: int|
                0 <= j < snapshot@.len() && near(self.position@, #[trigger] snapshot@[j].position@, radius as int)
                    ==> neighbors@.contains(j as usize),
        ensures
            r.1 == near_count(snapshot@, self.position@, radius as int),
            r.0@ == near_mean(snapshot@, self.position@, radius as int, kind),
            in_box(r.0@, COORD_LIMIT as int),
    {
        let ghost q = self.position@;
        let ghost snap = snapshot@;
        let ghost r = radius as int;
        let ghost ks = neighbors@.map_values(|k: usize| k as int);
        let ghost gx = near_term(snap, q, r, |b: Bird| term(kind, q, b).0);
        let ghost gy = near_term(snap, q, r, |b: Bird| term(kind, q, b).1);
        let ghost gc = near_term(snap, q, r, |b: Bird| 1int);
        let n = snapshot.len();
        assert(radius * radius <= CONFIG_LIMIT * CONFIG_LIMIT) by (nonlinear_arith)
            requires
                0 <= radius <= CONFIG_LIMIT,
        ;
        let mut sx: i128 = 0;
        let mut sy: i128 = 0;
        let mut count: usize = 0;
        let mut t: usize = 0;
        while t < neighbors.len()
            invariant
                t <= neighbors@.len(),
                count <= t,
                q == self.position@,
                snap == snapshot@,
                r == radius,
                ks == neighbors@.map_values(|k: usize| k as int),
                self.bounded(),
                all_bounded(snap),
                0 <= radius <= CONFIG_LIMIT,
                radius * radius <= CONFIG_LIMIT * CONFIG_LIMIT,
                forall|i: int| 0 <= i < neighbors@.len() ==> #[trigger] neighbors@[i] < snapshot@.len(),
                gx == near_term(snap, q, r, |b: Bird| term(kind, q, b).0),
                gy == near_term(snap, q, r, |b: Bird| term(kind, q, b).1),
                gc == near_term(snap, q, r, |b: Bird| 1int),
                sx == seq_sum(ks.subrange(0, t as int), gx),
                sy == seq_sum(ks.subrange(0, t as int), gy),
                count == seq_sum(ks.subrange(0, t as int), gc),
                -count * COORD_LIMIT <= sx <= count * COORD_LIMIT,
                -count * COORD_LIMIT <= sy <= count * COORD_LIMIT,
            decreases neighbors@.len() - t,
        {
            let j = neighbors[t];
            let b = &snapshot[j];
            assert(snap[j as int].bounded());
            let ghost sub = ks.subrange(0, t + 1);
            assert(sub.drop_last() == ks.subrange(0, t as int));
            assert(sub.last() == j as int);
            let diff = self.position.minus(b.position);
            let d = diff.norm_sq();
            assert(d == dist_sq(q, b.position@));
            let rr = (radius as u128) * (radius as u128);
            if 0 < d && d <= rr {
                assert(near(q, b.position@, CONFIG_LIMIT as int)) by {
                    assert(r * r <= CONFIG_LIMIT * CONFIG_LIMIT) by (nonlinear_arith)
                        requires
                            0 <= r <= CONFIG_LIMIT,
                    ;
                }
                let v = self.term_of(b, &kind);
                sx = sx + v.x as i128;
                sy = sy + v.y as i128;
                count = count + 1;
            }
            t = t + 1;
        }
        proof {
            assert(ks.subrange(0, t as int) == ks);
            assert(ks.no_duplicates()) by {
                assert forall|a: int, b: int| 0 <= a < ks.len() && 0 <= b < ks.len() && a != b implies ks[a]
                    != ks[b] by {
                    assert(neighbors@[a] != neighbors@[b]);
                }
            }
            assert forall|j: int| 0 <= j < snap.len() && near(q, #[trigger] snap[j].position@, r) implies ks.contains(j) by {
                assert(j < n);
                assert(neighbors@.contains(j as usize));
                let i = choose|i: int| 0 <= i < neighbors@.len() && neighbors@[i] == j as usize;
                assert(ks[i] == j);
            }
            lemma_seq_sum_covers(ks, gx, snap.len() as int);
            lemma_seq_sum_covers(ks, gy, snap.len() as int);
            lemma_seq_sum_covers(ks, gc, snap.len() as int);
        }
        if count == 0 {
            return (Vec2::zero(), 0);
        }
        proof {
            lemma_mean_bound(sx as int, count as int, COORD_LIMIT as int);
            lemma_mean_bound(sy as int, count as int, COORD_LIMIT as int);
        }
        let mx = if sx >= 0 {
            sx / (count as i128)
        } else {
            -((-sx) / (count as i128))
        };
        let my = if sy >= 0 {
            sy / (count as i128)
        } else {
            -((-sy) / (count as i128))
        };
        (Vec2::new(mx as i64, my as i64), count)
    }

    /// Steering toward `desired`, from this bird's velocity.
    fn steer(&self, desired: Vec2, cfg: &BirdConfig) -> (r: Vec2)
        requires
            self.bounded(),
            cfg.valid(),
            in_box(desired@, 2 * COORD_LIMIT),
        ensures
            r@ == steer(desired@, self.velocity@, *cfg),
            in_box(r@, cfg.max_force as int),
    {
        let mut s = desired.with_length(cfg.max_speed).minus(self.velocity);
        clamp_magnitude(&mut s, cfg.max_force);
        s
    }

    /// The separation rule: steer along the mean of the unit vectors pointing
    /// away from each neighbour within `desired_separation`.
    pub fn seperate(&self, neighbors: &Vec<usize>, snapshot: &Vec<Bird>, cfg: &BirdConfig) -> (r: Vec2)
        requires
            self.bounded(),
            all_bounded(snapshot@),
            cfg.valid(),
            neighbors@.no_duplicates(),
            forall|i: int| 0 <= i < neighbors@.len() ==> #[trigger] neighbors@[i] < snapshot@.len(),
            forall|j: int|
                0 <= j < snapshot@.len() && near(
                    self.position@,
                    #[trigger] snapshot@[j].position@,
                    cfg.desired_separation as int,
                ) ==> neighbors@.contains(j as usize),
        ensures
            r@ == separation(snapshot@, self.position@, self.velocity@, *cfg),
            in_box(r@, cfg.max_force as int),
    {
        let (m, _count) = self.neighbor_mean(neighbors, snapshot, cfg.desired_separation, Aggregate::Away);
        if m.x == 0 && m.y == 0 {
            return Vec2::zero();
        }
        self.steer(m, cfg)
    }

    /// The alignment rule: steer toward the mean velocity of the neighbours
    /// within `neighbor_distance`.
    pub fn align(&self, neighbors: &Vec<usize>, snapshot: &Vec<Bird>, cfg: &BirdConfig) -> (r: Vec2)
        requires
            self.bounded(),
            all_bounded(snapshot@),
            cfg.valid(),
            neighbors@.no_duplicates(),
            forall|i: int| 0 <= i < neighbors@.len() ==> #[trigger] neighbors@[i] < snapshot@.len(),
            forall|j: int|
                0 <= j < snapshot@.len() && near(
                    self.position@,
                    #[trigger] snapshot@[j].position@,
                    cfg.neighbor_distance as int,
                ) ==> neighbors@.contains(j as usize),
        ensures
            r@ == alignment(snapshot@, self.position@, self.velocity@, *cfg),
            in_box(r@, cfg.max_force as int),
    {
        let (m, count) = self.neighbor_mean(neighbors, snapshot, cfg.neighbor_distance, Aggregate::Heading);
        if count == 0 {
            return Vec2::zero();
        }
        self.steer(m, cfg)
    }

    /// The cohesion rule: steer toward the mean position of the neighbours
    /// within `neighbor_distance`.
    pub fn cohesion(&self, neighbors: &Vec<usize>, snapshot: &Vec<Bird>, cfg: &BirdConfig) -> (r: Vec2)
        requires
            self.bounded(),
            all_bounded(snapshot@),
            cfg.valid(),
            neighbors@.no_duplicates(),
            forall|i: int| 0 <= i < neighbors@.len() ==> #[trigger] neighbors@[i] < snapshot@.len(),
            forall|j: int|
                0 <= j < snapshot@.len() && near(
                    self.position@,
                    #[trigger] snapshot@[j].position@,
                    cfg.neighbor_distance as int,
                ) ==> neighbors@.contains(j as usize),
        ensures
            r@ == cohesion(snapshot@, self.position@, self.velocity@, *cfg),
            in_box(r@, cfg.max_force as int),
    {
        let (m, count) = self.neighbor_mean(neighbors, snapshot, cfg.neighbor_distance, Aggregate::Place);
        if count == 0 {
            return Vec2::zero();
        }
        let desired = m.minus(self.position);
        self.steer(desired, cfg)
    }

    /// One tick of this bird against `snapshot`, the flock as it stood before
    /// the tick, which `index` indexes: the three rules, then integration,
    /// then the acceleration is reset.
    pub fn update_bird(
        &mut self,
        index: &SpatialIndex,
        snapshot: &Vec<Bird>,
        cfg: &BirdConfig,
        time_step: i64,
    )
        requires
            old(self).bounded(),
            all_bounded(snapshot@),
            cfg.valid(),
            0 <= time_step <= STEP_LIMIT,
            index.wf(),
            index@ == positions(snapshot@),
        ensures
            final(self).position@ == stepped_position(*old(self), snapshot@, *cfg, time_step as int),
            final(self).velocity@ == stepped_velocity(*old(self), snapshot@, *cfg, time_step as int),
            final(self).acceleration@ == (0int, 0int),
            final(self).config_id == old(self).config_id,
            in_box(vsub(final(self).position@, old(self).position@), MOVE_LIMIT as int),
            in_box(final(self).velocity@, cfg.max_speed as int),
            norm_sq(final(self).velocity@) <= cfg.max_speed * cfg.max_speed,
    {
        let radius = if cfg.neighbor_distance > cfg.desired_separation {
            cfg.neighbor_distance
        } else {
            cfg.desired_separation
        };
        let neighbors = self.query(index, snapshot, radius);
        proof {
            let ds = cfg.desired_separation as int;
            let nd = cfg.neighbor_distance as int;
            assert(ds * ds <= radius * radius && nd * nd <= radius * radius) by (nonlinear_arith)
                requires
                    0 <= ds <= radius,
                    0 <= nd <= radius,
            ;
            assert forall|j: int|
                0 <= j < snapshot@.len() && near(self.position@, #[trigger] snapshot@[j].position@, ds)
                    implies neighbors@.contains(j as usize) by {
                assert(dist_sq(self.position@, snapshot@[j].position@) <= radius * radius);
            }
            assert forall|j: int|
                0 <= j < snapshot@.len() && near(self.position@, #[trigger] snapshot@[j].position@, nd)
                    implies neighbors@.contains(j as usize) by {
                assert(dist_sq(self.position@, snapshot@[j].position@) <= radius * radius);
            }
        }
        let ghost before = *self;
        let sep = self.seperate(&neighbors, snapshot, cfg);
        let ali = self.align(&neighbors, snapshot, cfg);
        let coh = self.cohesion(&neighbors, snapshot, cfg);
        proof {
            let mf = cfg.max_force as int;
            assert(mf * cfg.separation_multiplier <= 2147483648 * SCALE && mf * cfg.alignment_multiplier
                <= 2147483648 * SCALE && mf * cfg.cohesion_multiplier <= 2147483648 * SCALE) by (nonlinear_arith)
                requires
                    0 <= mf <= CONFIG_LIMIT,
                    0 <= cfg.separation_multiplier <= CONFIG_LIMIT,
                    0 <= cfg.alignment_multiplier <= CONFIG_LIMIT,
                    0 <= cfg.cohesion_multiplier <= CONFIG_LIMIT,
            ;
            lemma_scale_div_box(sep@, cfg.separation_multiplier as int, SCALE as int, mf, 2147483648);
            lemma_scale_div_box(ali@, cfg.alignment_multiplier as int, SCALE as int, mf, 2147483648);
            lemma_scale_div_box(coh@, cfg.cohesion_multiplier as int, SCALE as int, mf, 2147483648);
        }
        let sep = sep.scale_div(cfg.separation_multiplier, SCALE);
        let ali = ali.scale_div(cfg.alignment_multiplier, SCALE);
        let coh = coh.scale_div(cfg.cohesion_multiplier, SCALE);
        let mut acc = self.acceleration.plus(sep).plus(ali).plus(coh);
        clamp_magnitude(&mut acc, cfg.max_force);
        assert(acc@ == steered_acceleration(before, snapshot@, *cfg));
        assert(0 <= time_step * time_step <= STEP_LIMIT * STEP_LIMIT) by (nonlinear_arith)
            requires
                0 <= time_step <= STEP_LIMIT,
        ;
        let dt2 = time_step * time_step;
        proof {
            assert(cfg.max_force * dt2 <= 4294967296 * (2 * SCALE * SCALE)) by (nonlinear_arith)
                requires
                    0 <= cfg.max_force <= CONFIG_LIMIT,
                    0 <= dt2 <= STEP_LIMIT * STEP_LIMIT,
            ;
            lemma_scale_div_box(acc@, dt2 as int, 2 * SCALE * SCALE, cfg.max_force as int, 4294967296);
        }
        let kick = acc.scale_div(dt2, 2 * SCALE * SCALE);
        let mut vel = self.velocity.plus(kick);
        clamp_magnitude(&mut vel, cfg.max_speed);
        proof {
            assert(cfg.max_speed * time_step <= MOVE_LIMIT * SCALE) by (nonlinear_arith)
                requires
                    0 <= cfg.max_speed <= CONFIG_LIMIT,
                    0 <= time_step <= STEP_LIMIT,
            ;
            lemma_scale_div_box(vel@, time_step as int, SCALE as int, cfg.max_speed as int, MOVE_LIMIT as int);
        }
        let step = vel.scale_div(time_step, SCALE);
        self.position = self.position.plus(step);
        self.velocity = vel;
        self.acceleration = Vec2::zero();
    }

    /// The heading of this bird as a cosine and sine in thousandths.
    fn heading(&self) -> (r: (i64, i64))
        requires
            self.bounded(),
        ensures
            (r.0 as int, r.1 as int) == heading(self.velocity@),
            -SCALE <= r.0 <= SCALE,
            -SCALE <= r.1 <= SCALE,
    {
        let v = self.velocity;
        if v.norm_sq() == 0 {
            return (SCALE, 0);
        }
        let turned = Vec2::new(v.y, -v.x);
        assert(norm_sq(turned@) == norm_sq(v@)) by (nonlinear_arith)
            requires
                turned@ == (v.y as int, -v.x),
        ;
        let h = turned.with_length(SCALE);
        (h.x, h.y)
    }

    /// The triangle that draws this bird: four corners, the first repeated
    /// at the end, of an equilateral triangle of side `bird_size` centred on
    /// the bird and turned so that its apex leads along the velocity.
    pub fn get_vertices(&self, bird_config: &BirdConfig) -> (r: Vec<Vec2>)
        requires
            self.bounded(),
            bird_config.valid(),
        ensures
            r@.len() == 4,
            forall|k: int| 0 <= k < 4 ==> (#[trigger] r@[k])@ == vertices(*self, *bird_config)[k],
    {
        let (c, s) = self.heading();
        let size = bird_config.bird_size;
        let inr = size * INRADIUS_PER_SIDE / SCALE;
        let half = size / 2;
        let mut r: Vec<Vec2> = Vec::new();
        r.push(self.place(0, 2 * inr, c, s));
        r.push(self.place(-half, -inr, c, s));
        r.push(self.place(half, -inr, c, s));
        r.push(self.place(0, 2 * inr, c, s));
        proof {
            let cs = corners(size as int);
            let i = inr as int;
            let h = half as int;
            assert(cs[0] == (0int, 2 * i));
            assert(cs[1] == (-h, -i));
            assert(cs[2] == (h, -i));
            assert(cs[3] == (0int, 2 * i));
        }
        r
    }

    /// Corner `(ex, ey)` rotated by the heading `(c, s)` and moved to this bird.
    fn place(&self, ex: i64, ey: i64, c: i64, s: i64) -> (r: Vec2)
        requires
            self.bounded(),
            -2 * CONFIG_LIMIT <= ex <= 2 * CONFIG_LIMIT,
            -2 * CONFIG_LIMIT <= ey <= 2 * CONFIG_LIMIT,
            -SCALE <= c <= SCALE,
            -SCALE <= s <= SCALE,
        ensures
            r@ == place((ex as int, ey as int), (c as int, s as int), self.position@),
    {
        assert(-2 * CONFIG_LIMIT * SCALE <= c * ex <= 2 * CONFIG_LIMIT * SCALE && -2 * CONFIG_LIMIT * SCALE
            <= s * ey <= 2 * CONFIG_LIMIT * SCALE && -2 * CONFIG_LIMIT * SCALE <= s * ex <= 2 * CONFIG_LIMIT
            * SCALE && -2 * CONFIG_LIMIT * SCALE <= c * ey <= 2 * CONFIG_LIMIT * SCALE) by (nonlinear_arith)
            requires
                -2 * CONFIG_LIMIT <= ex <= 2 * CONFIG_LIMIT,
                -2 * CONFIG_LIMIT <= ey <= 2 * CONFIG_LIMIT,
                -SCALE <= c <= SCALE,
                -SCALE <= s <= SCALE,
        ;
        let a = c * ex - s * ey;
        let b = s * ex + c * ey;
        let da = if a >= 0 {
            a / SCALE
        } else {
            -((-a) / SCALE)
        };
        let db = if b >= 0 {
            b / SCALE
        } else {
            -((-b) / SCALE)
        };
        Vec2::new(self.position.x + da, self.position.y + db)
    }

    /// The neighbours of this bird within `radius` in the indexed snapshot.
    fn query(&self, index: &SpatialIndex, snapshot: &Vec<Bird>, radius: i64) -> (r: Vec<usize>)
        requires
            self.bounded(),
            index.wf(),
            index@ == positions(snapshot@),
            0 <= radius <= CONFIG_LIMIT,
        ensures
            r@.no_duplicates(),
            forall|i: int| 0 <= i < r@.len() ==> #[trigger] r@[i] < snapshot@.len(),
            forall|j: int|
                0 <= j < snapshot@.len() && dist_sq(self.position@, #[trigger] snapshot@[j].position@)
                    <= radius * radius ==> r@.contains(j as usize),
    {
        let r = index.within_radius(self.position, radius);
        let n = snapshot.len();
        proof {
            assert forall|i: int| 0 <= i < r@.len() implies #[trigger] r@[i] < snapshot@.len() by {
                assert(r@.contains(r@[i]));
            }
            assert forall|j: int|
                0 <= j < snapshot@.len() && dist_sq(self.position@, #[trigger] snapshot@[j].position@)
                    <= radius * radius implies r@.contains(j as usize) by {
                assert(j < n);
                assert(index@[j] == snapshot@[j].position@);
                let a = self.position@;
                let b = snapshot@[j].position@;
                assert(dist_sq(a, b) == dist_sq(b, a)) by (nonlinear_arith);
            }
        }
        r
    }

    /// The border rule: a bird that has left the arena, widened by a tenth
    /// and by its margin, comes back at the opposite edge.
    pub fn borders(&mut self, cfg: &BirdConfig, width: i64, height: i64)
        requires
            in_box(old(self).position@, COORD_LIMIT as int),
            cfg.valid(),
            0 <= width <= ARENA_LIMIT,
            0 <= height <= ARENA_LIMIT,
        ensures
            final(self).position@ == wrapped(old(self).position@, *cfg, width as int, height as int),
            *final(self) == wrapped_bird(*old(self), *cfg, width as int, height as int),
            final(self).velocity == old(self).velocity,
            final(self).acceleration == old(self).acceleration,
            final(self).config_id == old(self).config_id,
            old(self).position.x > half_extent(width as int) + margin(*cfg) ==> final(self).position.x == -half_extent(width as int) + margin(*cfg),
            old(self).position.x + margin(*cfg) < -half_extent(width as int) ==> final(self).position.x == half_extent(width as int) - margin(*cfg),
            old(self).position.y > half_extent(height as int) + margin(*cfg) ==> final(self).position.y == -half_extent(height as int) + margin(*cfg),
            old(self).position.y + margin(*cfg) < -half_extent(height as int) ==> final(self).position.y == half_extent(height as int) - margin(*cfg),
            -(half_extent(width as int) + margin(*cfg)) <= final(self).position.x <= half_extent(width as int) + margin(*cfg),
            -(half_extent(height as int) + margin(*cfg)) <= final(self).position.y <= half_extent(height as int) + margin(*cfg),
    {
        let half_width = width * 11 / 20;
        let half_height = height * 11 / 20;
        let r = cfg.bird_size * 3 / 2;
        let x = wrap_coordinate(self.position.x, half_width, r);
        let y = wrap_coordinate(self.position.y, half_height, r);
        self.position = Vec2::new(x, y);
    }
}

/// The wrap rule along one axis.
fn wrap_coordinate(x: i64, half: i64, m: i64) -> (r: i64)
    requires
        -COORD_LIMIT <= x <= COORD_LIMIT,
        0 <= half <= ARENA_LIMIT,
        0 <= m <= 2 * CONFIG_LIMIT,
    ensures
        r == wrap_axis(x as int, half as int, m as int),
        -(half + m) <= r <= half + m,
{
    let x1 = if x + m < -half {
        half - m
    } else {
        x
    };
    if x1 > half {
        -half + m
    } else {
        x1
    }
}

/// Summing a neighbour term over a snapshot with two entries exchanged
/// gives the same total.
proof fn lemma_near_sums_swap(snap: Seq<Bird>, q: (int, int), r: int, i: int, j: int)
    requires
        0 <= i < snap.len(),
        0 <= j < snap.len(),
    ensures
        forall|f: spec_fn(Bird) -> int|
            #[trigger] range_sum(snap.len() as int, near_term(snap.update(i, snap[j]).update(j, snap[i]), q, r, f))
                == range_sum(snap.len() as int, near_term(snap, q, r, f)),
{
    let n = snap.len() as int;
    let s2 = snap.update(i, snap[j]).update(j, snap[i]);
    assert forall|f: spec_fn(Bird) -> int|
        #[trigger] range_sum(n, near_term(s2, q, r, f)) == range_sum(n, near_term(snap, q, r, f)) by {
        let g = near_term(snap, q, r, f);
        assert forall|k: int| 0 <= k < n implies #[trigger] near_term(s2, q, r, f)(k) == g(
            swapped(k, i, j),
        ) by {
            assert(s2[k] == snap[swapped(k, i, j)]);
        }
        lemma_range_sum_agree(n, near_term(s2, q, r, f), |k: int| g(swapped(k, i, j)));
        lemma_range_sum_swap(n, g, i, j);
    }
}

/// A bird's tick depends on the snapshot as a collection, not on the order
/// in which its entries stand: exchanging any two entries of the snapshot
/// leaves the bird's new position and velocity unchanged. So no bird's
/// update depends on whether another bird is processed before or after it.
pub proof fn lemma_tick_is_order_independent(
    b: Bird,
    snap: Seq<Bird>,
    cfg: BirdConfig,
    dt: int,
    i: int,
    j: int,
)
    requires
        0 <= i < snap.len(),
        0 <= j < snap.len(),
    ensures
        stepped_position(b, snap.update(i, snap[j]).update(j, snap[i]), cfg, dt) == stepped_position(
            b,
            snap,
            cfg,
            dt,
        ),
        stepped_velocity(b, snap.update(i, snap[j]).update(j, snap[i]), cfg, dt) == stepped_velocity(
            b,
            snap,
            cfg,
            dt,
        ),
{
    let s2 = snap.update(i, snap[j]).update(j, snap[i]);
    let q = b.position@;
    let ds = cfg.desired_separation as int;
    let nd = cfg.neighbor_distance as int;
    lemma_near_sums_swap(snap, q, ds, i, j);
    lemma_near_sums_swap(snap, q, nd, i, j);
    assert(near_count(s2, q, ds) == near_count(snap, q, ds));
    assert(near_count(s2, q, nd) == near_count(snap, q, nd));
    assert(near_sum(s2, q, ds, Aggregate::Away) == near_sum(snap, q, ds, Aggregate::Away));
    assert(near_sum(s2, q, nd, Aggregate::Heading) == near_sum(snap, q, nd, Aggregate::Heading));
    assert(near_sum(s2, q, nd, Aggregate::Place) == near_sum(snap, q, nd, Aggregate::Place));
    assert(steered_acceleration(b, s2, cfg) == steered_acceleration(b, snap, cfg));
}

/// An isolated bird, with no neighbour within either radius, feels no
/// separation, alignment or cohesion; with no pending acceleration and a
/// speed within its maximum, it moves on in a straight line at its own
/// velocity.
pub proof fn lemma_isolated_bird_is_inertial(b: Bird, snap: Seq<Bird>, cfg: BirdConfig, dt: int)
    requires
        forall|j: int|
            0 <= j < snap.len() ==> !near(b.position@, #[trigger] snap[j].position@, cfg.desired_separation as int)
                && !near(b.position@, snap[j].position@, cfg.neighbor_distance as int),
        cfg.valid(),
    ensures
        separation(snap, b.position@, b.velocity@, cfg) == (0int, 0int),
        alignment(snap, b.position@, b.velocity@, cfg) == (0int, 0int),
        cohesion(snap, b.position@, b.velocity@, cfg) == (0int, 0int),
        b.acceleration@ == (0int, 0int) && norm_sq(b.velocity@) <= cfg.max_speed * cfg.max_speed
            ==> stepped_velocity(b, snap, cfg, dt) == b.velocity@ && stepped_position(b, snap, cfg, dt)
            == vadd(b.position@, scale_div(b.velocity@, dt, SCALE as int)),
{
    let q = b.position@;
    let n = snap.len() as int;
    let ds = cfg.desired_separation as int;
    let nd = cfg.neighbor_distance as int;
    let zero = |j: int| 0int;
    lemma_range_sum_zero(n);
    assert forall|f: spec_fn(Bird) -> int|
        #[trigger] range_sum(n, near_term(snap, q, ds, f)) == 0 && range_sum(n, near_term(snap, q, nd, f)) == 0 by {
        lemma_range_sum_agree(n, near_term(snap, q, ds, f), zero);
        lemma_range_sum_agree(n, near_term(snap, q, nd, f), zero);
    }
    assert(near_count(snap, q, ds) == 0);
    assert(near_count(snap, q, nd) == 0);
    let k1 = cfg.separation_multiplier as int;
    let k2 = cfg.alignment_multiplier as int;
    let k3 = cfg.cohesion_multiplier as int;
    let k4 = dt * dt;
    assert(0 * k1 == 0 && 0 * k2 == 0 && 0 * k3 == 0 && 0 * k4 == 0) by (nonlinear_arith);
    if b.acceleration@ == (0int, 0int) && norm_sq(b.velocity@) <= cfg.max_speed * cfg.max_speed {
        assert(norm_sq((0int, 0int)) <= cfg.max_force * cfg.max_force) by (nonlinear_arith);
        assert(steered_acceleration(b, snap, cfg) == (0int, 0int));
        assert(vadd(b.velocity@, scale_div((0int, 0int), k4, 2 * SCALE * SCALE)) == b.velocity@);
    }
}

} // verus!
