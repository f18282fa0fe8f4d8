//! The world and the simulation step.
//!
//! A tick is a pure function of the interaction model, the configuration and
//! the previous particle array: a spatial grid is rebuilt from the old
//! positions, a force-accumulation pass computes each particle's new
//! velocity from its neighbors, and an integration pass advances positions
//! and applies the boundary policy. The force law is stated exactly by spec
//! functions over the fixed-point integers, so each executable piece carries
//! an exact functional contract.

use crate::fixed::{
    abs64, clip_add, div_floor, div_floor_128, iabs, is_sqrt_floor, isqrt, lemma_div_bounded_by_factor, lemma_div_neg,
    lemma_div_floor_bounds, lemma_sqrt_floor, mod_floor, sat_add, sqrt_floor, DIAMETER, GRID_SIZE,
    LIMIT, NEAR_R2, RADIUS, R_SMOOTH, SCALE,
};
use crate::params::Params;
use crate::particles::{Particle, ParticleTypes, Vec2Fix};
use crate::rng::{draw_inclusive, fresh_rng};
use rayon::iter::{IntoParallelRefIterator, ParallelIterator};
use vstd::prelude::*;

verus! {

/// The simulation extent and boundary policy carrier.
pub struct Universe {
    width: i64,
    height: i64,
}

/// The wrap-minimal displacement on one axis: whenever the raw displacement
/// exceeds half the extent in magnitude, one extent is added or removed.
pub open spec fn spec_wrap_delta(d: int, w: int) -> int {
    if 2 * d > w {
        d - w
    } else if 2 * d < -w {
        d + w
    } else {
        d
    }
}

/// The signed force magnitude for a pair at distance `r` (`sqrt_floor` of
/// the squared distance). Beyond the near cutoff it is the tent function:
/// zero at both cutoffs, peaking at the attraction coefficient midway. At
/// or under the near cutoff it is the collision-avoidance term, which is
/// non-positive and independent of the attraction sign.
pub open spec fn spec_magnitude(a: int, minr: int, maxr: int, r: int) -> int {
    if r > minr {
        (a * ((maxr - minr) - iabs(2 * r - (maxr + minr)))) / (maxr - minr)
    } else {
        (R_SMOOTH as int * minr * (r - minr)) / ((minr + R_SMOOTH as int) * (r + R_SMOOTH as int))
    }
}

/// The force contribution of a neighbor at displacement `(dx, dy)` on the
/// two axes: zero outside the interaction annulus (nearer than the
/// singularity threshold or farther than the far cutoff), otherwise the
/// magnitude scaled onto the displacement direction.
pub open spec fn spec_pair_force(a: int, minr: int, maxr: int, dx: int, dy: int) -> (int, int) {
    let r2 = dx * dx + dy * dy;
    if r2 < NEAR_R2 || r2 > maxr * maxr {
        (0, 0)
    } else {
        let r = sqrt_floor(r2);
        let m = spec_magnitude(a, minr, maxr, r);
        ((dx * m) / r, (dy * m) / r)
    }
}

/// Velocity after friction damping: scaled by `(SCALE - f) / SCALE`.
pub open spec fn spec_friction(v: int, f: int) -> int {
    (v * (SCALE as int - f)) / (SCALE as int)
}

/// One axis of the integration step: the position advances by the
/// pre-friction velocity (saturating), the velocity is damped, and the
/// boundary policy is applied - modular wrap into `[0, w)`, or reflection
/// at walls inset by one particle radius.
pub open spec fn spec_integrate_axis(x: int, v: int, w: int, f: int, wrap: bool) -> (int, int) {
    let nx = clip_add(x, v);
    let nv = spec_friction(v, f);
    if wrap {
        (nx % w, nv)
    } else {
        if nx <= RADIUS {
            (RADIUS as int, -nv)
        } else if nx >= w - RADIUS {
            (w - RADIUS, -nv)
        } else {
            (nx, nv)
        }
    }
}

/// Applies the wrap-minimal correction to a raw displacement when the world
/// wraps; leaves it unchanged otherwise.
pub fn wrap_delta(d: i64, extent: i64, wrap: bool) -> (r: i64)
    requires
        1 <= extent <= LIMIT,
        -extent < d < extent,
    ensures
        wrap ==> r == spec_wrap_delta(d as int, extent as int),
        !wrap ==> r == d,
        -extent < r < extent,
        wrap ==> -extent <= 2 * r <= extent,
{
    if wrap {
        if 2 * d > extent {
            d - extent
        } else if 2 * d < -extent {
            d + extent
        } else {
            d
        }
    } else {
        d
    }
}

/// The force a neighbor of type `q_typ` at displacement `(dx, dy)` exerts
/// on a particle of type `p_typ`, exactly as `spec_pair_force` states over
/// the model's coefficients. In particular a near-coincident pair (squared
/// distance under the singularity threshold) contributes nothing.
pub fn pair_force(types: &ParticleTypes, p_typ: u8, q_typ: u8, dx: i64, dy: i64) -> (f: (i64, i64))
    requires
        types.wf(),
        (p_typ as int) < types.n(),
        (q_typ as int) < types.n(),
        iabs(dx as int) <= LIMIT,
        iabs(dy as int) <= LIMIT,
    ensures
        ({
            let s = spec_pair_force(
                types.att(p_typ as int, q_typ as int),
                types.minr(p_typ as int, q_typ as int),
                types.maxr(p_typ as int, q_typ as int),
                dx as int,
                dy as int,
            );
            f.0 == s.0 && f.1 == s.1
        }),
        dx * dx + dy * dy < NEAR_R2 ==> f.0 == 0 && f.1 == 0,
        iabs(f.0 as int) <= LIMIT && iabs(f.1 as int) <= LIMIT,
{
    let (min_radius, max_radius) = types.get_radii(p_typ, q_typ);
    let a = types.get_attraction(p_typ, q_typ);
    proof {
        assert(-1_000_000_000_000_000_000 <= dx as int * dx as int <= 1_000_000_000_000_000_000
            && -1_000_000_000_000_000_000 <= dy as int * dy as int <= 1_000_000_000_000_000_000
            && dx as int * dx as int >= 0 && dy as int * dy as int >= 0) by (nonlinear_arith)
            requires
                iabs(dx as int) <= LIMIT,
                iabs(dy as int) <= LIMIT,
        ;
        assert(0 <= max_radius as int * max_radius as int <= 1_000_000_000_000_000_000)
            by (nonlinear_arith)
            requires
                0 <= max_radius as int <= LIMIT,
        ;
    }
    let r2 = dx * dx + dy * dy;
    if r2 < NEAR_R2 || r2 > max_radius * max_radius {
        return (0, 0);
    }
    let ru = isqrt(r2 as u64);
    proof {
        assert(ru as int * ru as int <= r2 as int);
        assert(ru <= 2_000_000_000) by (nonlinear_arith)
            requires
                ru as int * ru as int <= 2_000_000_000_000_000_000,
                ru >= 0,
        ;
    }
    let r = ru as i64;
    proof {
        assert(r as int <= max_radius as int) by (nonlinear_arith)
            requires
                r as int * r as int <= max_radius as int * max_radius as int,
                r >= 0,
                max_radius as int >= 0,
        ;
        assert(r >= 100) by (nonlinear_arith)
            requires
                (r as int + 1) * (r as int + 1) > 10_000,
                r >= 0,
        ;
    }
    let m: i64;
    if r > min_radius {
        let d = max_radius - min_radius;
        let tw = 2 * r - (max_radius + min_radius);
        let numer = abs64(tw);
        let t = d - numer;
        proof {
            assert(-1_000_000_000_000_000_000 <= a as int * t as int
                <= 1_000_000_000_000_000_000) by (nonlinear_arith)
                requires
                    iabs(a as int) <= LIMIT,
                    0 <= t as int <= LIMIT,
            ;
            assert(-iabs(a as int) * d as int <= a as int * t as int <= iabs(a as int) * d as int)
                by (nonlinear_arith)
                requires
                    0 <= t as int <= d as int,
            ;
            lemma_div_bounded_by_factor(a as int * t as int, iabs(a as int), d as int);
        }
        m = div_floor(a * t, d);
    } else {
        let s128 = R_SMOOTH as i128;
        let m128 = min_radius as i128;
        let r128 = r as i128;
        proof {
            assert(0 <= s128 as int * m128 as int <= 2_000_000_000_000
                && -2_000_000_000_000_000_000_000_000 <= (s128 as int * m128 as int) * (r128 as int
                - m128 as int) <= 0) by (nonlinear_arith)
                requires
                    s128 as int == 2000,
                    1000 <= m128 as int <= LIMIT,
                    0 <= r128 as int <= m128 as int,
            ;
            assert(0 < (m128 as int + s128 as int) * (r128 as int + s128 as int)
                <= 4_000_000_000_000_000_000) by (nonlinear_arith)
                requires
                    s128 as int == 2000,
                    1000 <= m128 as int <= LIMIT,
                    0 <= r128 as int <= 2_000_000_000,
            ;
        }
        let num = (s128 * m128) * (r128 - m128);
        let den = (m128 + s128) * (r128 + s128);
        proof {
            assert(-(m128 as int) * (den as int) <= num as int <= (m128 as int) * (den as int))
                by (nonlinear_arith)
                requires
                    num as int == (2000 * m128 as int) * (r128 as int - m128 as int),
                    den as int == (m128 as int + 2000) * (r128 as int + 2000),
                    1000 <= m128 as int <= LIMIT,
                    0 <= r128 as int <= m128 as int,
            ;
            lemma_div_bounded_by_factor(num as int, m128 as int, den as int);
        }
        let q = div_floor_128(num, den);
        m = q as i64;
    }
    proof {
        assert(-1_000_000_000_000_000_000 <= dx as int * m as int <= 1_000_000_000_000_000_000
            && -1_000_000_000_000_000_000 <= dy as int * m as int <= 1_000_000_000_000_000_000)
            by (nonlinear_arith)
            requires
                iabs(dx as int) <= LIMIT,
                iabs(dy as int) <= LIMIT,
                iabs(m as int) <= LIMIT,
        ;
        assert(iabs(dx as int) <= r as int && iabs(dy as int) <= r as int) by (nonlinear_arith)
            requires
                (r as int + 1) * (r as int + 1) > dx as int * dx as int + dy as int * dy as int,
                r >= 0,
        ;
        assert(-LIMIT * r as int <= dx as int * m as int <= LIMIT * r as int && -LIMIT * r as int
            <= dy as int * m as int <= LIMIT * r as int) by (nonlinear_arith)
            requires
                iabs(dx as int) <= r as int,
                iabs(dy as int) <= r as int,
                iabs(m as int) <= LIMIT,
                r >= 100,
        ;
        lemma_div_bounded_by_factor(dx as int * m as int, LIMIT as int, r as int);
        lemma_div_bounded_by_factor(dy as int * m as int, LIMIT as int, r as int);
    }
    let fx = div_floor(dx * m, r);
    let fy = div_floor(dy * m, r);
    (fx, fy)
}

/// One axis of the integration step, exactly as `spec_integrate_axis`
/// states: position advanced and wrapped or reflected, velocity damped and
/// negated on reflection.
pub fn integrate_axis(x: i64, v: i64, extent: i64, friction: i64, wrap: bool) -> (r: (i64, i64))
    requires
        1 <= extent <= LIMIT,
        0 <= friction <= SCALE,
        v > i64::MIN,
        !wrap ==> extent >= 2 * RADIUS,
    ensures
        ({
            let s = spec_integrate_axis(x as int, v as int, extent as int, friction as int, wrap);
            r.0 == s.0 && r.1 == s.1
        }),
        wrap ==> 0 <= r.0 < extent,
        !wrap ==> RADIUS <= r.0 <= extent - RADIUS,
        r.1 > i64::MIN,
{
    proof {
        assert(-(i64::MAX as int) * (SCALE as int) <= v as int * (SCALE as int - friction as int)
            <= (i64::MAX as int) * (SCALE as int)) by (nonlinear_arith)
            requires
                -(i64::MAX as int) <= v as int <= i64::MAX as int,
                0 <= SCALE as int - friction as int <= SCALE as int,
                SCALE as int == 1000,
        ;
        assert(-iabs(v as int) * (SCALE as int) <= v as int * (SCALE as int - friction as int)
            <= iabs(v as int) * (SCALE as int)) by (nonlinear_arith)
            requires
                0 <= SCALE as int - friction as int <= SCALE as int,
        ;
        lemma_div_bounded_by_factor(
            v as int * (SCALE as int - friction as int),
            iabs(v as int),
            SCALE as int,
        );
    }
    let damped = div_floor_128((v as i128) * ((SCALE - friction) as i128), SCALE as i128);
    let nv = damped as i64;
    let nx = sat_add(x, v);
    if wrap {
        let px = mod_floor(nx, extent);
        (px, nv)
    } else {
        if nx <= RADIUS {
            (RADIUS, -nv)
        } else if nx >= extent - RADIUS {
            (extent - RADIUS, -nv)
        } else {
            (nx, nv)
        }
    }
}

/// The particle that the integration pass produces: both axes advanced by
/// `spec_integrate_axis`, the type id untouched.
pub open spec fn spec_integrate_particle(p: Particle, w: int, h: int, f: int, wrap: bool) -> Particle {
    let sx = spec_integrate_axis(p.pos.x as int, p.vel.x as int, w, f, wrap);
    let sy = spec_integrate_axis(p.pos.y as int, p.vel.y as int, h, f, wrap);
    Particle {
        pos: Vec2Fix { x: sx.0 as i64, y: sy.0 as i64 },
        vel: Vec2Fix { x: sx.1 as i64, y: sy.1 as i64 },
        typ: p.typ,
    }
}

/// The integration pass for one particle: both axes advanced, the type id
/// untouched.
pub fn integrate(p: &Particle, width: i64, height: i64, params: &Params) -> (r: Particle)
    requires
        1 <= width <= LIMIT,
        1 <= height <= LIMIT,
        0 <= params.friction <= SCALE,
        p.vel.x > i64::MIN,
        p.vel.y > i64::MIN,
        !params.wrap ==> width >= 2 * RADIUS && height >= 2 * RADIUS,
    ensures
        r == spec_integrate_particle(
            *p,
            width as int,
            height as int,
            params.friction as int,
            params.wrap,
        ),
        r.typ == p.typ,
        ({
            let sx = spec_integrate_axis(
                p.pos.x as int,
                p.vel.x as int,
                width as int,
                params.friction as int,
                params.wrap,
            );
            let sy = spec_integrate_axis(
                p.pos.y as int,
                p.vel.y as int,
                height as int,
                params.friction as int,
                params.wrap,
            );
            r.pos.x == sx.0 && r.vel.x == sx.1 && r.pos.y == sy.0 && r.vel.y == sy.1
        }),
        params.wrap ==> 0 <= r.pos.x < width && 0 <= r.pos.y < height,
        !params.wrap ==> RADIUS <= r.pos.x <= width - RADIUS && RADIUS <= r.pos.y <= height
            - RADIUS,
        r.vel.x > i64::MIN,
        r.vel.y > i64::MIN,
{
    let (px, vx) = integrate_axis(p.pos.x, p.vel.x, width, params.friction, params.wrap);
    let (py, vy) = integrate_axis(p.pos.y, p.vel.y, height, params.friction, params.wrap);
    Particle { pos: Vec2Fix { x: px, y: py }, vel: Vec2Fix { x: vx, y: vy }, typ: p.typ }
}

/// The grid cell of a coordinate: `floor(pos * g / extent)`.
pub open spec fn spec_cell_of(pos: int, extent: int, g: int) -> int {
    (pos * g) / extent
}

/// The bucket index the grid assigns to a particle: its cell, row-major.
pub open spec fn spec_bucket_of(p: Particle, w: int, h: int, g: int) -> int {
    spec_cell_of(p.pos.x as int, w, g) + spec_cell_of(p.pos.y as int, h, g) * g
}

/// The particles of `ps` whose assigned bucket is `b`, in input order.
pub open spec fn spec_grid_bucket(ps: Seq<Particle>, w: int, h: int, g: int, b: int) -> Seq<
    Particle,
> {
    ps.filter(|q: Particle| spec_bucket_of(q, w, h, g) == b)
}

/// Some bucket of the sequence holds `p`.
pub open spec fn in_buckets(bs: Seq<Vec<Particle>>, p: Particle) -> bool {
    exists|k: int| 0 <= k < bs.len() && #[trigger] bs[k]@.contains(p)
}

/// The grid cell of a coordinate: `floor(pos * g / extent)`.
fn cell_index(pos: i64, extent: i64, g: usize) -> (c: usize)
    requires
        0 <= pos < extent,
        1 <= extent <= LIMIT,
        1 <= g <= 1000,
    ensures
        c as int == (pos as int * g as int) / (extent as int),
        c < g,
{
    proof {
        let pg = pos as int * g as int;
        let eg = extent as int * g as int;
        assert(0 <= pg <= 1_000_000_000_000 && pg < eg) by (nonlinear_arith)
            requires
                pg == pos as int * g as int,
                eg == extent as int * g as int,
                0 <= (pos as int) < (extent as int),
                extent as int <= LIMIT,
                1 <= g as int <= 1000,
        ;
        vstd::arithmetic::div_mod::lemma_multiply_divide_lt(
            pos as int * g as int,
            extent as int,
            g as int,
        );
        lemma_div_floor_bounds(pos as int * g as int, extent as int);
    }
    let prod = (pos as u64) * (g as u64);
    let c = prod / (extent as u64);
    c as usize
}

/// A cell index wrapped into `[0, g)` modulo the grid dimension.
fn wrap_cell(v: i64, g: i64) -> (c: usize)
    requires
        1 <= g <= 1000,
    ensures
        c as int == v as int % g as int,
        c < g,
{
    let m = mod_floor(v, g);
    m as usize
}

/// The spatial index: a fixed square grid of buckets, rebuilt every tick
/// from the current particle positions.
pub struct ParticleBuckets {
    buckets: Vec<Vec<Particle>>,
    grid_size: usize,
    width: i64,
    height: i64,
}

impl ParticleBuckets {
    /// Grid dimension.
    pub closed spec fn g(self) -> int {
        self.grid_size as int
    }

    /// World width.
    pub closed spec fn w(self) -> int {
        self.width as int
    }

    /// World height.
    pub closed spec fn h(self) -> int {
        self.height as int
    }

    /// The grid has `g * g` buckets and a representable extent.
    pub closed spec fn grid_wf(self) -> bool {
        &&& self.buckets@.len() == self.g() * self.g()
        &&& 1 <= self.g() <= 1000
        &&& 1 <= self.w() <= LIMIT
        &&& 1 <= self.h() <= LIMIT
    }

    /// `p` sits in some bucket.
    pub closed spec fn in_grid(self, p: Particle) -> bool {
        in_buckets(self.buckets@, p)
    }

    /// The contents of bucket `b`.
    pub closed spec fn bucket(self, b: int) -> Seq<Particle> {
        self.buckets@[b]@
    }

    /// The bucket of cell `(cx, cy)`, both indices wrapped modulo the grid
    /// dimension.
    pub open spec fn bucket_at(self, cx: int, cy: int) -> Seq<Particle> {
        self.bucket(cx % self.g() + (cy % self.g()) * self.g())
    }

    /// The buckets of cells `(min_cx, cy)` through `(min_cx + nx - 1, cy)`,
    /// concatenated left to right.
    pub open spec fn covered_row(self, min_cx: int, nx: nat, cy: int) -> Seq<Particle>
        decreases nx,
    {
        if nx == 0 {
            Seq::empty()
        } else {
            self.covered_row(min_cx, (nx - 1) as nat, cy) + self.bucket_at(min_cx + nx - 1, cy)
        }
    }

    /// The rows `min_cy` through `min_cy + ny - 1` of covered cells,
    /// concatenated bottom-up.
    pub open spec fn covered_block(self, min_cx: int, nx: nat, min_cy: int, ny: nat) -> Seq<
        Particle,
    >
        decreases ny,
    {
        if ny == 0 {
            Seq::empty()
        } else {
            self.covered_block(min_cx, nx, min_cy, (ny - 1) as nat) + self.covered_row(
                min_cx,
                nx,
                min_cy + ny - 1,
            )
        }
    }

    /// The exact result of a neighbor query: the concatenation of the
    /// buckets of every cell covering the disc of the given radius around
    /// `pos`, rows bottom-up and cells left to right, with toroidal index
    /// wrap on both axes.
    pub open spec fn spec_neighbors(self, pos: Vec2Fix, radius: int) -> Seq<Particle> {
        let min_cx = spec_cell_of(pos.x - radius, self.w(), self.g());
        let max_cx = spec_cell_of(pos.x + radius, self.w(), self.g());
        let min_cy = spec_cell_of(pos.y - radius, self.h(), self.g());
        let max_cy = spec_cell_of(pos.y + radius, self.h(), self.g());
        self.covered_block(min_cx, (max_cx - min_cx + 1) as nat, min_cy, (max_cy - min_cy
            + 1) as nat)
    }

    /// Scatters the particles into buckets by cell: every bucket holds
    /// exactly the input particles assigned to it, in input order, so
    /// duplicates are kept and each occurrence lands in one bucket.
    pub fn new(particles: &Vec<Particle>, width: i64, height: i64, grid_size: usize) -> (r:
        ParticleBuckets)
        requires
            1 <= grid_size <= 1000,
            1 <= width <= LIMIT,
            1 <= height <= LIMIT,
            forall|k: int|
                0 <= k < particles@.len() ==> 0 <= (#[trigger] particles@[k]).pos.x < width && 0
                    <= particles@[k].pos.y < height,
        ensures
            r.grid_wf(),
            r.g() == grid_size,
            r.w() == width,
            r.h() == height,
            forall|b: int|
                0 <= b < grid_size as int * grid_size as int ==> #[trigger] r.bucket(b)
                    == spec_grid_bucket(
                    particles@,
                    width as int,
                    height as int,
                    grid_size as int,
                    b,
                ),
            forall|p: Particle| #[trigger] r.in_grid(p) ==> particles@.contains(p),
            forall|k: int| 0 <= k < particles@.len() ==> r.in_grid(#[trigger] particles@[k]),
    {
        proof {
            assert(1 <= grid_size as int * grid_size as int <= 1_000_000) by (nonlinear_arith)
                requires
                    1 <= grid_size as int <= 1000,
            ;
        }
        let gg = grid_size * grid_size;
        let mut buckets: Vec<Vec<Particle>> = Vec::new();
        while buckets.len() < gg
            invariant
                buckets@.len() <= gg,
                forall|k: int| 0 <= k < buckets@.len() ==> (#[trigger] buckets@[k])@.len() == 0,
            decreases gg - buckets@.len(),
        {
            buckets.push(Vec::new());
        }
        proof {
            assert forall|b: int| 0 <= b < gg as int implies #[trigger] buckets@[b]@
                == spec_grid_bucket(
                particles@.take(0),
                width as int,
                height as int,
                grid_size as int,
                b,
            ) by {
                reveal(Seq::filter);
                assert(particles@.take(0) =~= Seq::<Particle>::empty());
                assert(buckets@[b]@ =~= Seq::<Particle>::empty());
            }
        }
        let mut idx: usize = 0;
        while idx < particles.len()
            invariant
                0 <= idx <= particles@.len(),
                buckets@.len() == gg,
                gg as int == grid_size as int * grid_size as int,
                1 <= grid_size <= 1000,
                1 <= width <= LIMIT,
                1 <= height <= LIMIT,
                forall|k: int|
                    0 <= k < particles@.len() ==> 0 <= (#[trigger] particles@[k]).pos.x < width
                        && 0 <= particles@[k].pos.y < height,
                forall|k: int|
                    0 <= k < idx ==> in_buckets(buckets@, #[trigger] particles@[k]),
                forall|p: Particle| #[trigger] in_buckets(buckets@, p) ==> particles@.contains(p),
                forall|b: int|
                    0 <= b < gg as int ==> #[trigger] buckets@[b]@ == spec_grid_bucket(
                        particles@.take(idx as int),
                        width as int,
                        height as int,
                        grid_size as int,
                        b,
                    ),
            decreases particles@.len() - idx,
        {
            let p = particles[idx];
            let cx = cell_index(p.pos.x, width, grid_size);
            let cy = cell_index(p.pos.y, height, grid_size);
            proof {
                assert(cx as int + cy as int * (grid_size as int) < (grid_size as int)
                    * (grid_size as int)) by (nonlinear_arith)
                    requires
                        0 <= (cx as int) < (grid_size as int),
                        0 <= (cy as int) < (grid_size as int),
                ;
            }
            let b = cx + cy * grid_size;
            let ghost prev = buckets@;
            buckets[b].push(p);
            proof {
                assert(buckets@[b as int]@ == prev[b as int]@.push(p));
                assert(in_buckets(buckets@, p)) by {
                    assert(buckets@[b as int]@[prev[b as int]@.len() as int] == p);
                    assert(buckets@[b as int]@.contains(p));
                }
                assert forall|q: Particle| in_buckets(prev, q) implies in_buckets(
                    buckets@,
                    q,
                ) by {
                    let k = choose|k: int| 0 <= k < prev.len() && #[trigger] prev[k]@.contains(q);
                    if k == b as int {
                        let m = choose|m: int|
                            0 <= m < prev[k]@.len() && prev[k]@[m] == q;
                        assert(buckets@[k]@[m] == q);
                        assert(buckets@[k]@.contains(q));
                    } else {
                        assert(buckets@[k]@.contains(q));
                    }
                }
                assert(particles@.contains(p)) by {
                    assert(particles@[idx as int] == p);
                }
                let w_ = width as int;
                let h_ = height as int;
                let g_ = grid_size as int;
                let taken = particles@.take(idx as int + 1);
                assert(taken.drop_last() =~= particles@.take(idx as int));
                assert(taken.last() == p);
                assert(spec_bucket_of(p, w_, h_, g_) == b as int);
                assert forall|bb: int| 0 <= bb < gg as int implies #[trigger] buckets@[bb]@
                    == spec_grid_bucket(taken, w_, h_, g_, bb) by {
                    reveal(Seq::filter);
                    let pred = |q: Particle| spec_bucket_of(q, w_, h_, g_) == bb;
                    assert(taken.filter(pred) == if pred(taken.last()) {
                        taken.drop_last().filter(pred).push(taken.last())
                    } else {
                        taken.drop_last().filter(pred)
                    });
                    assert(taken.drop_last().filter(pred) == particles@.take(idx as int).filter(
                        pred,
                    ));
                    if bb == b as int {
                        assert(pred(p));
                        assert(buckets@[bb]@ == prev[bb]@.push(p));
                    } else {
                        assert(!pred(p));
                        assert(buckets@[bb]@ == prev[bb]@);
                    }
                }
                assert forall|q: Particle| in_buckets(buckets@, q) implies particles@.contains(
                    q,
                ) by {
                    let k = choose|k: int|
                        0 <= k < buckets@.len() && #[trigger] buckets@[k]@.contains(q);
                    if k == b as int {
                        let m = choose|m: int|
                            0 <= m < buckets@[k]@.len() && buckets@[k]@[m] == q;
                        if m < prev[k]@.len() {
                            assert(prev[k]@[m] == q);
                            assert(prev[k]@.contains(q));
                            assert(in_buckets(prev, q));
                        } else {
                            assert(q == p);
                        }
                    } else {
                        assert(prev[k]@.contains(q));
                        assert(in_buckets(prev, q));
                    }
                }
            }
            idx = idx + 1;
        }
        proof {
            assert(particles@.take(particles@.len() as int) =~= particles@);
        }
        ParticleBuckets { buckets, grid_size, width, height }
    }

    /// All particles of the cells covering the disc of the given radius
    /// around `pos`, with toroidal index wrap on both axes: exactly the
    /// concatenation `spec_neighbors` describes. A superset query - callers
    /// must apply the exact distance test themselves.
    pub fn get_neighbors(&self, pos: Vec2Fix, radius: i64) -> (r: Vec<Particle>)
        requires
            self.grid_wf(),
            0 <= radius <= LIMIT,
            iabs(pos.x as int) <= LIMIT,
            iabs(pos.y as int) <= LIMIT,
        ensures
            r@ == self.spec_neighbors(pos, radius as int),
            forall|k: int| 0 <= k < r@.len() ==> self.in_grid(#[trigger] r@[k]),
    {
        let g = self.grid_size as i64;
        proof {
            assert(-4_000_000_000_000 <= (pos.x as int - radius as int) * g as int
                <= 4_000_000_000_000 && -4_000_000_000_000 <= (pos.x as int + radius as int)
                * g as int <= 4_000_000_000_000 && -4_000_000_000_000 <= (pos.y as int
                - radius as int) * g as int <= 4_000_000_000_000 && -4_000_000_000_000 <= (
            pos.y as int + radius as int) * g as int <= 4_000_000_000_000) by (nonlinear_arith)
                requires
                    iabs(pos.x as int) <= LIMIT,
                    iabs(pos.y as int) <= LIMIT,
                    0 <= radius as int <= LIMIT,
                    1 <= g as int <= 1000,
            ;
            lemma_div_floor_bounds((pos.x as int - radius as int) * g as int, self.w());
            lemma_div_floor_bounds((pos.x as int + radius as int) * g as int, self.w());
            lemma_div_floor_bounds((pos.y as int - radius as int) * g as int, self.h());
            lemma_div_floor_bounds((pos.y as int + radius as int) * g as int, self.h());
        }
        let min_cx = div_floor((pos.x - radius) * g, self.width);
        let max_cx = div_floor((pos.x + radius) * g, self.width);
        let min_cy = div_floor((pos.y - radius) * g, self.height);
        let max_cy = div_floor((pos.y + radius) * g, self.height);
        proof {
            assert((pos.x as int - radius as int) * g as int <= (pos.x as int + radius as int)
                * g as int && (pos.y as int - radius as int) * g as int <= (pos.y as int
                + radius as int) * g as int) by (nonlinear_arith)
                requires
                    radius >= 0,
                    g as int >= 1,
            ;
            vstd::arithmetic::div_mod::lemma_div_is_ordered(
                (pos.x as int - radius as int) * g as int,
                (pos.x as int + radius as int) * g as int,
                self.w(),
            );
            vstd::arithmetic::div_mod::lemma_div_is_ordered(
                (pos.y as int - radius as int) * g as int,
                (pos.y as int + radius as int) * g as int,
                self.h(),
            );
        }
        let mut result: Vec<Particle> = Vec::new();
        let mut y = min_cy;
        while y <= max_cy
            invariant
                self.grid_wf(),
                g as int == self.g(),
                min_cx as int == spec_cell_of(pos.x - radius, self.w(), self.g()),
                max_cx as int == spec_cell_of(pos.x + radius, self.w(), self.g()),
                min_cy as int == spec_cell_of(pos.y - radius, self.h(), self.g()),
                max_cy as int == spec_cell_of(pos.y + radius, self.h(), self.g()),
                min_cx <= max_cx,
                min_cy <= y <= max_cy + 1,
                -4_000_000_000_000 <= min_cx,
                max_cx <= 4_000_000_000_000,
                -4_000_000_000_000 <= min_cy,
                max_cy <= 4_000_000_000_000,
                result@ == self.covered_block(
                    min_cx as int,
                    (max_cx - min_cx + 1) as nat,
                    min_cy as int,
                    (y - min_cy) as nat,
                ),
                forall|k: int| 0 <= k < result@.len() ==> self.in_grid(#[trigger] result@[k]),
            decreases max_cy + 1 - y,
        {
            let mut x = min_cx;
            let ghost rows = result@;
            while x <= max_cx
                invariant
                    self.grid_wf(),
                    g as int == self.g(),
                    min_cx <= x <= max_cx + 1,
                    -4_000_000_000_000 <= min_cx,
                    max_cx <= 4_000_000_000_000,
                    -4_000_000_000_000 <= y <= 4_000_000_000_000,
                    result@ == rows + self.covered_row(min_cx as int, (x - min_cx) as nat, y as int),
                    forall|k: int| 0 <= k < result@.len() ==> self.in_grid(#[trigger] result@[k]),
                decreases max_cx + 1 - x,
            {
                let xw = wrap_cell(x, g);
                let yw = wrap_cell(y, g);
                proof {
                    assert(xw as int + yw as int * (g as int) < (g as int) * (g as int) && (
                    g as int) * (g as int) <= 1_000_000) by (nonlinear_arith)
                        requires
                            0 <= (xw as int) < (g as int),
                            0 <= (yw as int) < (g as int),
                            g as int <= 1000,
                    ;
                }
                let b = xw + yw * self.grid_size;
                proof {
                    assert(self.bucket_at(x as int, y as int) == self.buckets@[b as int]@);
                }
                let ghost before = result@;
                let blen = self.buckets[b].len();
                let mut t: usize = 0;
                while t < blen
                    invariant
                        self.grid_wf(),
                        0 <= b < self.buckets@.len(),
                        blen == self.buckets@[b as int]@.len(),
                        0 <= t <= blen,
                        result@ == before + self.buckets@[b as int]@.take(t as int),
                        forall|k: int|
                            0 <= k < result@.len() ==> self.in_grid(#[trigger] result@[k]),
                    decreases blen - t,
                {
                    let q = self.buckets[b][t];
                    proof {
                        assert(self.buckets@[b as int]@.contains(q)) by {
                            assert(self.buckets@[b as int]@[t as int] == q);
                        }
                        assert(self.in_grid(q));
                        assert(before + self.buckets@[b as int]@.take(t as int + 1) =~= (before
                            + self.buckets@[b as int]@.take(t as int)).push(q));
                    }
                    result.push(q);
                    t = t + 1;
                }
                proof {
                    let row_n = self.covered_row(min_cx as int, (x - min_cx) as nat, y as int);
                    assert(self.buckets@[b as int]@.take(blen as int) =~= self.buckets@[
                        b as int
                    ]@);
                    assert(self.covered_row(min_cx as int, (x - min_cx + 1) as nat, y as int)
                        == row_n + self.bucket_at(x as int, y as int));
                    assert(result@ =~= rows + (row_n + self.bucket_at(x as int, y as int)));
                }
                x = x + 1;
            }
            proof {
                assert(self.covered_block(
                    min_cx as int,
                    (max_cx - min_cx + 1) as nat,
                    min_cy as int,
                    (y - min_cy + 1) as nat,
                ) == self.covered_block(
                    min_cx as int,
                    (max_cx - min_cx + 1) as nat,
                    min_cy as int,
                    (y - min_cy) as nat,
                ) + self.covered_row(min_cx as int, (max_cx - min_cx + 1) as nat, y as int));
            }
            y = y + 1;
        }
        result
    }
}

/// The velocity a particle ends phase A with, given the candidate
/// neighbors in query order: its old velocity plus, one neighbor at a time,
/// the pair force at the (wrap-corrected) displacement, each component
/// added with saturation.
pub open spec fn spec_accumulate(
    types: ParticleTypes,
    p: Particle,
    qs: Seq<Particle>,
    w: int,
    h: int,
    wrap: bool,
) -> (int, int)
    decreases qs.len(),
{
    if qs.len() == 0 {
        (p.vel.x as int, p.vel.y as int)
    } else {
        let prefix = spec_accumulate(types, p, qs.drop_last(), w, h, wrap);
        let q = qs.last();
        let dx = if wrap {
            spec_wrap_delta(q.pos.x - p.pos.x, w)
        } else {
            q.pos.x - p.pos.x
        };
        let dy = if wrap {
            spec_wrap_delta(q.pos.y - p.pos.y, h)
        } else {
            q.pos.y - p.pos.y
        };
        let f = spec_pair_force(
            types.att(p.typ as int, q.typ as int),
            types.minr(p.typ as int, q.typ as int),
            types.maxr(p.typ as int, q.typ as int),
            dx,
            dy,
        );
        (clip_add(prefix.0, f.0), clip_add(prefix.1, f.1))
    }
}

/// Folds the force contributions of the given candidate neighbors into the
/// particle's velocity, exactly as `spec_accumulate` states; position and
/// type are untouched.
pub fn accumulate_forces(
    p: &Particle,
    neighbors: &Vec<Particle>,
    types: &ParticleTypes,
    width: i64,
    height: i64,
    wrap: bool,
) -> (r: Particle)
    requires
        types.wf(),
        1 <= width <= LIMIT,
        1 <= height <= LIMIT,
        p.valid(width as int, height as int, types.n()),
        forall|m: int|
            0 <= m < neighbors@.len() ==> (#[trigger] neighbors@[m]).valid(
                width as int,
                height as int,
                types.n(),
            ),
    ensures
        r.typ == p.typ,
        r.pos == p.pos,
        (r.vel.x as int, r.vel.y as int) == spec_accumulate(
            *types,
            *p,
            neighbors@,
            width as int,
            height as int,
            wrap,
        ),
        r.vel.x > i64::MIN,
        r.vel.y > i64::MIN,
{
    let mut vx = p.vel.x;
    let mut vy = p.vel.y;
    let mut k: usize = 0;
    while k < neighbors.len()
        invariant
            0 <= k <= neighbors@.len(),
            vx > i64::MIN,
            vy > i64::MIN,
            types.wf(),
            1 <= width <= LIMIT,
            1 <= height <= LIMIT,
            p.valid(width as int, height as int, types.n()),
            forall|m: int|
                0 <= m < neighbors@.len() ==> (#[trigger] neighbors@[m]).valid(
                    width as int,
                    height as int,
                    types.n(),
                ),
            (vx as int, vy as int) == spec_accumulate(
                *types,
                *p,
                neighbors@.take(k as int),
                width as int,
                height as int,
                wrap,
            ),
        decreases neighbors@.len() - k,
    {
        let q = neighbors[k];
        let dxr = q.pos.x - p.pos.x;
        let dyr = q.pos.y - p.pos.y;
        let dx = wrap_delta(dxr, width, wrap);
        let dy = wrap_delta(dyr, height, wrap);
        let f = pair_force(types, p.typ, q.typ, dx, dy);
        vx = sat_add(vx, f.0);
        vy = sat_add(vy, f.1);
        proof {
            let taken = neighbors@.take(k as int + 1);
            assert(taken.drop_last() =~= neighbors@.take(k as int));
            assert(taken.last() == neighbors@[k as int]);
        }
        k = k + 1;
    }
    proof {
        assert(neighbors@.take(neighbors@.len() as int) =~= neighbors@);
    }
    Particle { pos: p.pos, vel: Vec2Fix { x: vx, y: vy }, typ: p.typ }
}

/// The particle that phase A produces: the same position and type, with
/// the velocity folded over the grid's neighbor query at the given radius.
pub open spec fn spec_advance_one(
    types: ParticleTypes,
    grid: ParticleBuckets,
    p: Particle,
    wrap: bool,
    max_radius: int,
) -> Particle {
    let v = spec_accumulate(
        types,
        p,
        grid.spec_neighbors(p.pos, max_radius),
        grid.w(),
        grid.h(),
        wrap,
    );
    Particle { pos: p.pos, vel: Vec2Fix { x: v.0 as i64, y: v.1 as i64 }, typ: p.typ }
}

/// Phase A for one particle: queries the grid for candidate neighbors
/// around its position and folds their force contributions into its
/// velocity; position and type are untouched.
pub fn advance_velocity(
    p: &Particle,
    grid: &ParticleBuckets,
    types: &ParticleTypes,
    wrap: bool,
    max_radius: i64,
) -> (r: Particle)
    requires
        grid.grid_wf(),
        types.wf(),
        forall|q: Particle| #[trigger] grid.in_grid(q) ==> q.valid(grid.w(), grid.h(), types.n()),
        p.valid(grid.w(), grid.h(), types.n()),
        0 <= max_radius <= LIMIT,
    ensures
        r == spec_advance_one(*types, *grid, *p, wrap, max_radius as int),
        r.typ == p.typ,
        r.pos == p.pos,
        r.vel.x > i64::MIN,
        r.vel.y > i64::MIN,
{
    let neighbors = grid.get_neighbors(p.pos, max_radius);
    proof {
        assert forall|m: int| 0 <= m < neighbors@.len() implies (
        #[trigger] neighbors@[m]).valid(grid.w(), grid.h(), types.n()) by {
            assert(grid.in_grid(neighbors@[m]));
        }
    }
    accumulate_forces(p, &neighbors, types, grid.width, grid.height, wrap)
}

/// Relies on rayon's parallel map over a slice: `par_iter().map(..).collect()`
/// into a `Vec` applies the closure to every element and collects the
/// results in input order. The closure only calls the verified
/// `advance_velocity`, whose exact contract gives every clause below,
/// including each output element's value `spec_advance_one` of its input.
#[verifier::external_body]
fn par_advance(
    particles: &Vec<Particle>,
    grid: &ParticleBuckets,
    types: &ParticleTypes,
    wrap: bool,
    max_radius: i64,
) -> (r: Vec<Particle>)
    requires
        grid.grid_wf(),
        types.wf(),
        forall|q: Particle| #[trigger] grid.in_grid(q) ==> q.valid(grid.w(), grid.h(), types.n()),
        forall|k: int|
            0 <= k < particles@.len() ==> (#[trigger] particles@[k]).valid(
                grid.w(),
                grid.h(),
                types.n(),
            ),
        0 <= max_radius <= LIMIT,
    ensures
        r@.len() == particles@.len(),
        forall|k: int|
            0 <= k < r@.len() ==> #[trigger] r@[k] == spec_advance_one(
                *types,
                *grid,
                particles@[k],
                wrap,
                max_radius as int,
            ),
        forall|k: int|
            0 <= k < r@.len() ==> (#[trigger] r@[k]).typ == particles@[k].typ && r@[k].pos
                == particles@[k].pos && r@[k].vel.x > i64::MIN && r@[k].vel.y > i64::MIN,
{
    particles.par_iter().map(|p| advance_velocity(p, grid, types, wrap, max_radius)).collect()
}

/// The grid that a tick builds from the previous particles: dimension
/// `GRID_SIZE` over this world's extent, every bucket holding exactly the
/// input particles of its cell, in input order.
pub open spec fn spec_built_grid(grid: ParticleBuckets, ps: Seq<Particle>, w: int, h: int) -> bool {
    &&& grid.grid_wf()
    &&& grid.g() == GRID_SIZE
    &&& grid.w() == w
    &&& grid.h() == h
    &&& forall|b: int|
        0 <= b < grid.g() * grid.g() ==> #[trigger] grid.bucket(b) == spec_grid_bucket(
            ps,
            w,
            h,
            GRID_SIZE as int,
            b,
        )
}

/// `m` is the largest far cutoff of the model.
pub open spec fn spec_is_max_radius(types: ParticleTypes, m: int) -> bool {
    &&& forall|a: int, b: int|
        0 <= a < types.n() && 0 <= b < types.n() ==> #[trigger] types.maxr(a, b) <= m
    &&& exists|a: int, b: int|
        0 <= a < types.n() && 0 <= b < types.n() && m == #[trigger] types.maxr(a, b)
}

impl Universe {
    /// World width, in fixed-point units.
    pub closed spec fn w(self) -> int {
        self.width as int
    }

    /// World height, in fixed-point units.
    pub closed spec fn h(self) -> int {
        self.height as int
    }

    /// A representable, positive extent.
    pub open spec fn wf(self) -> bool {
        &&& 1 <= self.w() <= LIMIT
        &&& 1 <= self.h() <= LIMIT
    }

    /// A world of the given extent.
    pub fn new(width: i64, height: i64) -> (r: Universe)
        requires
            1 <= width <= LIMIT,
            1 <= height <= LIMIT,
        ensures
            r.wf(),
            r.w() == width,
            r.h() == height,
    {
        Universe { width, height }
    }

    /// The world extent.
    pub fn size(&self) -> (r: (i64, i64))
        ensures
            r.0 == self.w(),
            r.1 == self.h(),
    {
        (self.width, self.height)
    }

    /// The initial particle set: uniform positions over the extent and
    /// uniform types, drawn through the `rng` wrappers; initial velocities
    /// are the caller's normal draws, two per particle.
    pub fn create_particles(
        &self,
        particle_types: &ParticleTypes,
        n: usize,
        vel_draws: &Vec<i64>,
    ) -> (r: Vec<Particle>)
        requires
            self.wf(),
            particle_types.wf(),
            vel_draws@.len() >= 2 * n,
            forall|k: int| 0 <= k < vel_draws@.len() ==> iabs(#[trigger] vel_draws@[k] as int) <= LIMIT,
        ensures
            r@.len() == n,
            forall|k: int|
                0 <= k < n ==> (#[trigger] r@[k]).valid(self.w(), self.h(), particle_types.n()),
            forall|k: int|
                0 <= k < n ==> (#[trigger] r@[k]).vel.x == vel_draws@[2 * k] && r@[k].vel.y
                    == vel_draws@[2 * k + 1],
    {
        let mut rng = fresh_rng();
        let types_n = particle_types.size();
        let mut out: Vec<Particle> = Vec::new();
        let mut i: usize = 0;
        while i < n
            invariant
                0 <= i <= n,
                out@.len() == i,
                self.wf(),
                particle_types.wf(),
                types_n == particle_types.n(),
                vel_draws@.len() >= 2 * n,
                forall|k: int|
                    0 <= k < vel_draws@.len() ==> iabs(#[trigger] vel_draws@[k] as int) <= LIMIT,
                forall|k: int|
                    0 <= k < i ==> (#[trigger] out@[k]).valid(
                        self.w(),
                        self.h(),
                        particle_types.n(),
                    ),
                forall|k: int|
                    0 <= k < i ==> (#[trigger] out@[k]).vel.x == vel_draws@[2 * k] && out@[k].vel.y
                        == vel_draws@[2 * k + 1],
            decreases n - i,
        {
            let px = draw_inclusive(&mut rng, 0, self.width - 1);
            let py = draw_inclusive(&mut rng, 0, self.height - 1);
            let t = draw_inclusive(&mut rng, 0, (types_n as i64) - 1);
            let cap = vel_draws.len();
            proof {
                assert(2 * (i as int) + 1 < cap as int);
            }
            let vx = vel_draws[2 * i];
            let vy = vel_draws[2 * i + 1];
            out.push(
                Particle {
                    pos: Vec2Fix { x: px, y: py },
                    vel: Vec2Fix { x: vx, y: vy },
                    typ: t as u8,
                },
            );
            i = i + 1;
        }
        out
    }

    /// One tick: rebuild the grid from the previous particles, accumulate
    /// forces into fresh velocities, then integrate. The input is never
    /// mutated; the result has the same length, preserves every particle's
    /// type id, and lies inside the world under either boundary policy.
    pub fn step(
        &self,
        particle_types: &ParticleTypes,
        params: &Params,
        particles: &Vec<Particle>,
    ) -> (r: Vec<Particle>)
        requires
            self.wf(),
            particle_types.wf(),
            0 <= params.friction <= SCALE,
            forall|k: int|
                0 <= k < particles@.len() ==> (#[trigger] particles@[k]).valid(
                    self.w(),
                    self.h(),
                    particle_types.n(),
                ),
            !params.wrap ==> self.w() >= 2 * RADIUS && self.h() >= 2 * RADIUS,
        ensures
            r@.len() == particles@.len(),
            forall|k: int|
                0 <= k < r@.len() ==> (#[trigger] r@[k]).typ == particles@[k].typ,
            forall|k: int|
                0 <= k < r@.len() ==> (#[trigger] r@[k]).valid(
                    self.w(),
                    self.h(),
                    particle_types.n(),
                ),
            params.wrap ==> forall|k: int|
                0 <= k < r@.len() ==> 0 <= (#[trigger] r@[k]).pos.x < self.w() && 0
                    <= r@[k].pos.y < self.h(),
            !params.wrap ==> forall|k: int|
                0 <= k < r@.len() ==> RADIUS <= (#[trigger] r@[k]).pos.x <= self.w() - RADIUS
                    && RADIUS <= r@[k].pos.y <= self.h() - RADIUS,
            exists|grid: ParticleBuckets, mr: i64|
                #![auto]
                {
                    &&& spec_built_grid(grid, particles@, self.w(), self.h())
                    &&& spec_is_max_radius(*particle_types, mr as int)
                    &&& forall|k: int|
                        0 <= k < r@.len() ==> #[trigger] r@[k] == spec_integrate_particle(
                            spec_advance_one(
                                *particle_types,
                                grid,
                                particles@[k],
                                params.wrap,
                                mr as int,
                            ),
                            self.w(),
                            self.h(),
                            params.friction as int,
                            params.wrap,
                        )
                },
    {
        let buckets = ParticleBuckets::new(particles, self.width, self.height, GRID_SIZE);
        proof {
            assert forall|q: Particle| #[trigger] buckets.in_grid(q) implies q.valid(
                buckets.w(),
                buckets.h(),
                particle_types.n(),
            ) by {
                assert(particles@.contains(q));
                let k = choose|k: int| 0 <= k < particles@.len() && particles@[k] == q;
                assert(particles@[k].valid(self.w(), self.h(), particle_types.n()));
            }
        }
        let max_radius = particle_types.get_max_radius();
        let phase_a = par_advance(particles, &buckets, particle_types, params.wrap, max_radius);
        let mut out: Vec<Particle> = Vec::new();
        let mut k: usize = 0;
        while k < phase_a.len()
            invariant
                0 <= k <= phase_a@.len(),
                out@.len() == k,
                phase_a@.len() == particles@.len(),
                self.wf(),
                particle_types.wf(),
                0 <= params.friction <= SCALE,
                !params.wrap ==> self.w() >= 2 * RADIUS && self.h() >= 2 * RADIUS,
                forall|m: int|
                    0 <= m < particles@.len() ==> (#[trigger] particles@[m]).valid(
                        self.w(),
                        self.h(),
                        particle_types.n(),
                    ),
                forall|m: int|
                    0 <= m < phase_a@.len() ==> (#[trigger] phase_a@[m]).typ == particles@[m].typ
                        && phase_a@[m].vel.x > i64::MIN && phase_a@[m].vel.y > i64::MIN,
                forall|m: int|
                    0 <= m < phase_a@.len() ==> #[trigger] phase_a@[m] == spec_advance_one(
                        *particle_types,
                        buckets,
                        particles@[m],
                        params.wrap,
                        max_radius as int,
                    ),
                forall|m: int|
                    0 <= m < k ==> #[trigger] out@[m] == spec_integrate_particle(
                        phase_a@[m],
                        self.w(),
                        self.h(),
                        params.friction as int,
                        params.wrap,
                    ),
                forall|m: int|
                    0 <= m < k ==> (#[trigger] out@[m]).typ == particles@[m].typ,
                forall|m: int|
                    0 <= m < k ==> (#[trigger] out@[m]).valid(
                        self.w(),
                        self.h(),
                        particle_types.n(),
                    ),
                params.wrap ==> forall|m: int|
                    0 <= m < k ==> 0 <= (#[trigger] out@[m]).pos.x < self.w() && 0
                        <= out@[m].pos.y < self.h(),
                !params.wrap ==> forall|m: int|
                    0 <= m < k ==> RADIUS <= (#[trigger] out@[m]).pos.x <= self.w() - RADIUS
                        && RADIUS <= out@[m].pos.y <= self.h() - RADIUS,
            decreases phase_a@.len() - k,
        {
            let np = integrate(&phase_a[k], self.width, self.height, params);
            out.push(np);
            k = k + 1;
        }
        proof {
            assert(spec_built_grid(buckets, particles@, self.w(), self.h()));
            assert(spec_is_max_radius(*particle_types, max_radius as int)) by {
                let (a, b) = choose|a: int, b: int|
                    0 <= a < particle_types.n() && 0 <= b < particle_types.n() && max_radius
                        == #[trigger] particle_types.maxr(a, b);
                assert(0 <= a < particle_types.n() && 0 <= b < particle_types.n()
                    && max_radius as int == particle_types.maxr(a, b));
            }
            assert forall|m: int| 0 <= m < out@.len() implies #[trigger] out@[m]
                == spec_integrate_particle(
                spec_advance_one(
                    *particle_types,
                    buckets,
                    particles@[m],
                    params.wrap,
                    max_radius as int,
                ),
                self.w(),
                self.h(),
                params.friction as int,
                params.wrap,
            ) by {
                assert(phase_a@[m] == spec_advance_one(
                    *particle_types,
                    buckets,
                    particles@[m],
                    params.wrap,
                    max_radius as int,
                ));
            }
        }
        out
    }
}

/// Two particles nearer than the singularity threshold exert no force on
/// each other: the pair's contribution is exactly zero, whatever the
/// coefficients.
pub proof fn lemma_no_singularity(a: int, minr: int, maxr: int, dx: int, dy: int)
    requires
        dx * dx + dy * dy < NEAR_R2,
    ensures
        spec_pair_force(a, minr, maxr, dx, dy) == (0int, 0int),
{
}

/// At the midpoint of the interaction annulus the tent function peaks
/// exactly at the attraction coefficient, and for a pair separated by that
/// distance along one axis the whole force is the coefficient directed
/// along that axis.
pub proof fn lemma_tent_peak(a: int, minr: int, maxr: int, r: int)
    requires
        DIAMETER <= minr < maxr,
        maxr <= LIMIT,
        2 * r == minr + maxr,
    ensures
        spec_magnitude(a, minr, maxr, r) == a,
        spec_pair_force(a, minr, maxr, r, 0) == (a, 0int),
{
    assert(minr < r && r <= maxr);
    let d = maxr - minr;
    assert(iabs(2 * r - (maxr + minr)) == 0);
    vstd::arithmetic::div_mod::lemma_div_multiples_vanish(a, d);
    vstd::arithmetic::mul::lemma_mul_is_commutative(a, d);
    assert((a * d) / d == a);
    assert(spec_magnitude(a, minr, maxr, r) == a);
    let r2 = r * r + 0 * 0;
    assert(NEAR_R2 <= r2 && r2 <= maxr * maxr && r2 < (r + 1) * (r + 1)) by (nonlinear_arith)
        requires
            r2 == r * r + 0 * 0,
            1000 <= r,
            r <= maxr,
    ;
    lemma_sqrt_floor(r2, r);
    vstd::arithmetic::div_mod::lemma_div_multiples_vanish(a, r);
    assert((r * a) / r == a);
    assert(0 * a == 0) by (nonlinear_arith);
    vstd::arithmetic::div_mod::lemma_div_of0(r);
    assert(spec_pair_force(a, minr, maxr, r, 0) == (a, 0int));
}

/// Under the near cutoff the magnitude is strictly negative regardless of
/// the attraction coefficient's sign, so the force pushes the particles
/// apart: the component toward the neighbor is strictly negative on the
/// positive side and non-negative on the negative side (a contribution may
/// round to zero there, never toward the neighbor).
pub proof fn lemma_collision_repulsion(a: int, minr: int, maxr: int, dx: int, dy: int, r: int)
    requires
        DIAMETER <= minr <= maxr,
        maxr <= LIMIT,
        NEAR_R2 <= dx * dx + dy * dy,
        dx * dx + dy * dy <= maxr * maxr,
        is_sqrt_floor(dx * dx + dy * dy, r),
        r < minr,
    ensures
        spec_magnitude(a, minr, maxr, r) < 0,
        dx > 0 ==> spec_pair_force(a, minr, maxr, dx, dy).0 < 0,
        dx < 0 ==> spec_pair_force(a, minr, maxr, dx, dy).0 >= 0,
        dy > 0 ==> spec_pair_force(a, minr, maxr, dx, dy).1 < 0,
        dy < 0 ==> spec_pair_force(a, minr, maxr, dx, dy).1 >= 0,
{
    let r2 = dx * dx + dy * dy;
    lemma_sqrt_floor(r2, r);
    let num = R_SMOOTH as int * minr * (r - minr);
    let den = (minr + R_SMOOTH as int) * (r + R_SMOOTH as int);
    assert(num < 0 && den >= 1) by (nonlinear_arith)
        requires
            num == 2000 * minr * (r - minr),
            den == (minr + 2000) * (r + 2000),
            1000 <= minr,
            0 <= r,
            r < minr,
    ;
    let m = spec_magnitude(a, minr, maxr, r);
    assert(m == num / den);
    lemma_div_neg(num, den);
    assert(m < 0);
    assert(r >= 1) by (nonlinear_arith)
        requires
            is_sqrt_floor(r2, r),
            r2 >= NEAR_R2,
    ;
    if dx > 0 {
        assert(dx * m < 0) by (nonlinear_arith)
            requires
                dx >= 1,
                m < 0,
        ;
        lemma_div_neg(dx * m, r);
    }
    if dx < 0 {
        assert(dx * m > 0) by (nonlinear_arith)
            requires
                dx <= -1,
                m < 0,
        ;
        vstd::arithmetic::div_mod::lemma_div_pos_is_pos(dx * m, r);
    }
    if dy > 0 {
        assert(dy * m < 0) by (nonlinear_arith)
            requires
                dy >= 1,
                m < 0,
        ;
        lemma_div_neg(dy * m, r);
    }
    if dy < 0 {
        assert(dy * m > 0) by (nonlinear_arith)
            requires
                dy <= -1,
                m < 0,
        ;
        vstd::arithmetic::div_mod::lemma_div_pos_is_pos(dy * m, r);
    }
}

/// Two grids with the same dimension and bucket contents have the same
/// covered rows.
proof fn lemma_row_agrees(
    g1: ParticleBuckets,
    g2: ParticleBuckets,
    min_cx: int,
    nx: nat,
    cy: int,
)
    requires
        1 <= g1.g(),
        g1.g() == g2.g(),
        forall|b: int| 0 <= b < g1.g() * g1.g() ==> #[trigger] g1.bucket(b) == g2.bucket(b),
    ensures
        g1.covered_row(min_cx, nx, cy) == g2.covered_row(min_cx, nx, cy),
    decreases nx,
{
    if nx != 0 {
        lemma_row_agrees(g1, g2, min_cx, (nx - 1) as nat, cy);
        let g = g1.g();
        let cx = min_cx + nx - 1;
        vstd::arithmetic::div_mod::lemma_mod_bound(cx, g);
        vstd::arithmetic::div_mod::lemma_mod_bound(cy, g);
        assert(0 <= cx % g + (cy % g) * g < g * g) by (nonlinear_arith)
            requires
                0 <= cx % g < g,
                0 <= cy % g < g,
        ;
        assert(g1.bucket_at(cx, cy) == g2.bucket_at(cx, cy));
    }
}

/// Two grids with the same dimension and bucket contents have the same
/// covered blocks.
proof fn lemma_block_agrees(
    g1: ParticleBuckets,
    g2: ParticleBuckets,
    min_cx: int,
    nx: nat,
    min_cy: int,
    ny: nat,
)
    requires
        1 <= g1.g(),
        g1.g() == g2.g(),
        forall|b: int| 0 <= b < g1.g() * g1.g() ==> #[trigger] g1.bucket(b) == g2.bucket(b),
    ensures
        g1.covered_block(min_cx, nx, min_cy, ny) == g2.covered_block(min_cx, nx, min_cy, ny),
    decreases ny,
{
    if ny != 0 {
        lemma_block_agrees(g1, g2, min_cx, nx, min_cy, (ny - 1) as nat);
        lemma_row_agrees(g1, g2, min_cx, nx, min_cy + ny - 1);
    }
}

/// The phase-A result reads the grid only through its dimension, extent
/// and bucket contents, all of which `spec_built_grid` pins. So the tick's
/// contract determines its output from the model, the configuration and
/// the previous particles alone: the engine is a pure function, and two
/// calls of `step` on equal inputs return equal results.
pub proof fn lemma_advance_one_agrees(
    types: ParticleTypes,
    g1: ParticleBuckets,
    g2: ParticleBuckets,
    p: Particle,
    wrap: bool,
    max_radius: int,
)
    requires
        1 <= g1.g(),
        g1.g() == g2.g(),
        g1.w() == g2.w(),
        g1.h() == g2.h(),
        forall|b: int| 0 <= b < g1.g() * g1.g() ==> #[trigger] g1.bucket(b) == g2.bucket(b),
    ensures
        spec_advance_one(types, g1, p, wrap, max_radius) == spec_advance_one(
            types,
            g2,
            p,
            wrap,
            max_radius,
        ),
{
    let min_cx = spec_cell_of(p.pos.x - max_radius, g1.w(), g1.g());
    let max_cx = spec_cell_of(p.pos.x + max_radius, g1.w(), g1.g());
    let min_cy = spec_cell_of(p.pos.y - max_radius, g1.h(), g1.g());
    let max_cy = spec_cell_of(p.pos.y + max_radius, g1.h(), g1.g());
    lemma_block_agrees(
        g1,
        g2,
        min_cx,
        (max_cx - min_cx + 1) as nat,
        min_cy,
        (max_cy - min_cy + 1) as nat,
    );
    assert(g1.spec_neighbors(p.pos, max_radius) == g2.spec_neighbors(p.pos, max_radius));
}

/// A coordinate inside the world maps to a cell inside the grid.
pub proof fn lemma_cell_in_range(pos: int, extent: int, g: int)
    requires
        0 <= pos < extent,
        1 <= g,
    ensures
        0 <= spec_cell_of(pos, extent, g) < g,
{
    assert(0 <= pos * g && pos * g < extent * g) by (nonlinear_arith)
        requires
            0 <= pos < extent,
            1 <= g,
    ;
    vstd::arithmetic::div_mod::lemma_multiply_divide_lt(pos * g, extent, g);
    lemma_div_floor_bounds(pos * g, extent);
}

/// On one axis, a neighbor within the wrap-minimal distance `radius` of the
/// query point lies in a cell that the covering range reaches modulo the
/// grid dimension; the covering cell is returned.
pub proof fn lemma_axis_covered(px: int, qx: int, radius: int, w: int, g: int) -> (c: int)
    requires
        1 <= w,
        1 <= g,
        0 <= px < w,
        0 <= qx < w,
        0 <= radius,
        iabs(spec_wrap_delta(qx - px, w)) <= radius,
    ensures
        spec_cell_of(px - radius, w, g) <= c <= spec_cell_of(px + radius, w, g),
        spec_cell_of(qx, w, g) == c % g,
{
    let d = spec_wrap_delta(qx - px, w);
    let off: int = if 2 * (qx - px) > w {
        w
    } else if 2 * (qx - px) < -w {
        -w
    } else {
        0
    };
    let j: int = if 2 * (qx - px) > w {
        g
    } else if 2 * (qx - px) < -w {
        -g
    } else {
        0
    };
    assert(qx == px + d + off);
    let c = spec_cell_of(px + d, w, g);
    assert((px - radius) * g <= (px + d) * g && (px + d) * g <= (px + radius) * g)
        by (nonlinear_arith)
        requires
            -radius <= d <= radius,
            1 <= g,
    ;
    vstd::arithmetic::div_mod::lemma_div_is_ordered((px - radius) * g, (px + d) * g, w);
    vstd::arithmetic::div_mod::lemma_div_is_ordered((px + d) * g, (px + radius) * g, w);
    assert(qx * g == (px + d) * g + j * w) by (nonlinear_arith)
        requires
            qx == px + d + off,
            (off == w && j == g) || (off == -w && j == -g) || (off == 0 && j == 0),
    ;
    vstd::arithmetic::div_mod::lemma_hoist_over_denominator((px + d) * g, j, w as nat);
    assert(spec_cell_of(qx, w, g) == c + j);
    if j == g {
        vstd::arithmetic::div_mod::lemma_mod_add_multiples_vanish(c, g);
    } else if j == -g {
        vstd::arithmetic::div_mod::lemma_mod_sub_multiples_vanish(c, g);
    }
    assert((c + j) % g == c % g);
    lemma_cell_in_range(qx, w, g);
    vstd::arithmetic::div_mod::lemma_small_mod(spec_cell_of(qx, w, g) as nat, g as nat);
    assert(spec_cell_of(qx, w, g) == c % g);
    c
}

/// An element of a covered cell's bucket appears in the row concatenation.
proof fn lemma_row_contains(
    grid: ParticleBuckets,
    min_cx: int,
    nx: nat,
    cy: int,
    cx: int,
    q: Particle,
)
    requires
        min_cx <= cx < min_cx + nx,
        grid.bucket_at(cx, cy).contains(q),
    ensures
        grid.covered_row(min_cx, nx, cy).contains(q),
    decreases nx,
{
    let prev = grid.covered_row(min_cx, (nx - 1) as nat, cy);
    let last = grid.bucket_at(min_cx + nx - 1, cy);
    assert(grid.covered_row(min_cx, nx, cy) == prev + last);
    if cx == min_cx + nx - 1 {
        let i = choose|i: int| 0 <= i < last.len() && last[i] == q;
        assert(grid.covered_row(min_cx, nx, cy)[prev.len() + i] == q);
        assert(grid.covered_row(min_cx, nx, cy).contains(q));
    } else {
        lemma_row_contains(grid, min_cx, (nx - 1) as nat, cy, cx, q);
        let i = choose|i: int| 0 <= i < prev.len() && prev[i] == q;
        assert(grid.covered_row(min_cx, nx, cy)[i] == q);
        assert(grid.covered_row(min_cx, nx, cy).contains(q));
    }
}

/// An element of a covered cell's bucket appears in the block concatenation.
proof fn lemma_block_contains(
    grid: ParticleBuckets,
    min_cx: int,
    nx: nat,
    min_cy: int,
    ny: nat,
    cx: int,
    cy: int,
    q: Particle,
)
    requires
        min_cx <= cx < min_cx + nx,
        min_cy <= cy < min_cy + ny,
        grid.bucket_at(cx, cy).contains(q),
    ensures
        grid.covered_block(min_cx, nx, min_cy, ny).contains(q),
    decreases ny,
{
    let prev = grid.covered_block(min_cx, nx, min_cy, (ny - 1) as nat);
    let row = grid.covered_row(min_cx, nx, min_cy + ny - 1);
    assert(grid.covered_block(min_cx, nx, min_cy, ny) == prev + row);
    if cy == min_cy + ny - 1 {
        lemma_row_contains(grid, min_cx, nx, cy, cx, q);
        let i = choose|i: int| 0 <= i < row.len() && row[i] == q;
        assert(grid.covered_block(min_cx, nx, min_cy, ny)[prev.len() + i] == q);
        assert(grid.covered_block(min_cx, nx, min_cy, ny).contains(q));
    } else {
        lemma_block_contains(grid, min_cx, nx, min_cy, (ny - 1) as nat, cx, cy, q);
        let i = choose|i: int| 0 <= i < prev.len() && prev[i] == q;
        assert(grid.covered_block(min_cx, nx, min_cy, ny)[i] == q);
        assert(grid.covered_block(min_cx, nx, min_cy, ny).contains(q));
    }
}

/// Completeness of the neighbor query: in a grid built from `ps`, every
/// particle of `ps` whose wrap-minimal distance to the query point is at
/// most `radius` on both axes appears in the query's result (the covering
/// is a superset of the disc).
pub proof fn lemma_neighbors_complete(
    grid: ParticleBuckets,
    ps: Seq<Particle>,
    pos: Vec2Fix,
    radius: int,
    k: int,
)
    requires
        grid.grid_wf(),
        forall|b: int|
            0 <= b < grid.g() * grid.g() ==> #[trigger] grid.bucket(b) == spec_grid_bucket(
                ps,
                grid.w(),
                grid.h(),
                grid.g(),
                b,
            ),
        0 <= k < ps.len(),
        0 <= ps[k].pos.x < grid.w(),
        0 <= ps[k].pos.y < grid.h(),
        0 <= pos.x < grid.w(),
        0 <= pos.y < grid.h(),
        0 <= radius,
        iabs(spec_wrap_delta(ps[k].pos.x - pos.x, grid.w())) <= radius,
        iabs(spec_wrap_delta(ps[k].pos.y - pos.y, grid.h())) <= radius,
    ensures
        grid.spec_neighbors(pos, radius).contains(ps[k]),
{
    broadcast use vstd::seq_lib::group_filter_ensures;

    let q = ps[k];
    let g = grid.g();
    let w = grid.w();
    let h = grid.h();
    let cqx = spec_cell_of(q.pos.x as int, w, g);
    let cqy = spec_cell_of(q.pos.y as int, h, g);
    lemma_cell_in_range(q.pos.x as int, w, g);
    lemma_cell_in_range(q.pos.y as int, h, g);
    let b = spec_bucket_of(q, w, h, g);
    assert(0 <= b < g * g) by (nonlinear_arith)
        requires
            b == cqx + cqy * g,
            0 <= cqx < g,
            0 <= cqy < g,
    ;
    assert(spec_grid_bucket(ps, w, h, g, b).contains(q));
    assert(grid.bucket(b).contains(q));
    let cx = lemma_axis_covered(pos.x as int, q.pos.x as int, radius, w, g);
    let cy = lemma_axis_covered(pos.y as int, q.pos.y as int, radius, h, g);
    assert(grid.bucket_at(cx, cy) == grid.bucket(b));
    let min_cx = spec_cell_of(pos.x - radius, w, g);
    let max_cx = spec_cell_of(pos.x + radius, w, g);
    let min_cy = spec_cell_of(pos.y - radius, h, g);
    let max_cy = spec_cell_of(pos.y + radius, h, g);
    lemma_block_contains(
        grid,
        min_cx,
        (max_cx - min_cx + 1) as nat,
        min_cy,
        (max_cy - min_cy + 1) as nat,
        cx,
        cy,
        q,
    );
}

/// The wrap-minimal correction returns a displacement within half the
/// extent in magnitude, and differs from the raw displacement by a whole
/// number of extents.
pub proof fn lemma_wrap_minimal(d: int, w: int)
    requires
        1 <= w,
        -w < d < w,
    ensures
        -w <= 2 * spec_wrap_delta(d, w) <= w,
        spec_wrap_delta(d, w) == d || spec_wrap_delta(d, w) == d - w || spec_wrap_delta(d, w) == d
            + w,
{
}

} // verus!
