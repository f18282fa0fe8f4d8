//! Particles and the per-type interaction model.
//!
//! `ParticleTypes` owns three square matrices indexed by ordered type pairs:
//! a generally asymmetric attraction coefficient and the symmetric near/far
//! cutoffs of the force law. `randomize` rebuilds them from a configuration:
//! the uniform radius draws are made through the `rng` wrappers, while the
//! normally distributed attraction draws are supplied by the caller as plain
//! fixed-point values, one per ordered pair in row-major order.

use crate::fixed::{abs64, iabs, DIAMETER, LIMIT};
use crate::params::{ConfigError, Params};
use crate::rng::{draw_inclusive, fresh_rng};
use vstd::prelude::*;

verus! {

/// A two-dimensional fixed-point vector.
#[derive(Clone, Copy, Debug, PartialEq, Eq, Structural)]
pub struct Vec2Fix {
    pub x: i64,
    pub y: i64,
}

/// A particle: position, velocity and type id.
#[derive(Clone, Copy, Debug, PartialEq, Eq, Structural)]
pub struct Particle {
    pub pos: Vec2Fix,
    pub vel: Vec2Fix,
    pub typ: u8,
}

impl Particle {
    /// The particle lies inside a `w` by `h` world, its type id selects one
    /// of `n` types, and its velocity components admit negation.
    pub open spec fn valid(self, w: int, h: int, n: int) -> bool {
        &&& 0 <= self.pos.x < w
        &&& 0 <= self.pos.y < h
        &&& (self.typ as int) < n
        &&& self.vel.x > i64::MIN
        &&& self.vel.y > i64::MIN
    }
}

/// `a * n + b` is a row-major index into an `n` by `n` matrix.
pub proof fn lemma_rowmajor_bound(a: int, b: int, n: int)
    requires
        0 <= a < n,
        0 <= b < n,
    ensures
        0 <= a * n + b < n * n,
    decreases 0int,
{
    assert(0 <= a * n + b < n * n) by (nonlinear_arith)
        requires
            0 <= a < n,
            0 <= b < n,
    ;
}

/// The ordered pair `(a, b)` precedes `(i, j)` in row-major iteration order.
pub open spec fn pair_done(i: int, j: int, a: int, b: int) -> bool {
    a < i || (a == i && b < j)
}

/// The attraction coefficient that `randomize` assigns to the ordered pair
/// `(a, b)` of an `n`-type model, given the caller's normal draws: the draw
/// itself off the diagonal, its absolute value on it.
pub open spec fn att_from_draws(draws: Seq<i64>, n: int, a: int, b: int) -> int {
    if a == b {
        iabs(draws[a * n + b] as int)
    } else {
        draws[a * n + b] as int
    }
}

/// The per-type interaction model: attraction and radius matrices.
#[derive(Debug)]
pub struct ParticleTypes {
    attraction: Vec<Vec<i64>>,
    min_radius: Vec<Vec<i64>>,
    max_radius: Vec<Vec<i64>>,
}

impl ParticleTypes {
    /// Number of types.
    pub closed spec fn n(self) -> int {
        self.attraction@.len() as int
    }

    /// The attraction coefficient of the ordered pair `(i, j)`.
    pub closed spec fn att(self, i: int, j: int) -> int {
        self.attraction@[i]@[j] as int
    }

    /// The near cutoff of the pair `(i, j)`.
    pub closed spec fn minr(self, i: int, j: int) -> int {
        self.min_radius@[i]@[j] as int
    }

    /// The far cutoff of the pair `(i, j)`.
    pub closed spec fn maxr(self, i: int, j: int) -> int {
        self.max_radius@[i]@[j] as int
    }

    /// All three matrices are `n` by `n`.
    pub closed spec fn sized(self) -> bool {
        &&& self.min_radius@.len() == self.n()
        &&& self.max_radius@.len() == self.n()
        &&& forall|i: int|
            0 <= i < self.n() ==> (#[trigger] self.attraction@[i])@.len() == self.n()
        &&& forall|i: int|
            0 <= i < self.n() ==> (#[trigger] self.min_radius@[i])@.len() == self.n()
        &&& forall|i: int|
            0 <= i < self.n() ==> (#[trigger] self.max_radius@[i])@.len() == self.n()
    }

    /// Well-formedness: sized, every cutoff pair ordered and representable
    /// with the near cutoff at least one particle diameter, cutoffs
    /// symmetric, the self-attraction non-negative and the self near cutoff
    /// exactly one diameter.
    pub open spec fn wf(self) -> bool {
        &&& self.sized()
        &&& 1 <= self.n() <= 255
        &&& forall|i: int, j: int|
            0 <= i < self.n() && 0 <= j < self.n() ==> DIAMETER <= #[trigger] self.minr(i, j)
                && self.minr(i, j) <= self.maxr(i, j) && self.maxr(i, j) <= LIMIT
        &&& forall|i: int, j: int|
            0 <= i < self.n() && 0 <= j < self.n() ==> iabs(#[trigger] self.att(i, j)) <= LIMIT
        &&& forall|i: int, j: int|
            0 <= i < self.n() && 0 <= j < self.n() ==> #[trigger] self.minr(i, j) == self.minr(
                j,
                i,
            )
        &&& forall|i: int, j: int|
            0 <= i < self.n() && 0 <= j < self.n() ==> #[trigger] self.maxr(i, j) == self.maxr(
                j,
                i,
            )
        &&& forall|i: int| 0 <= i < self.n() ==> #[trigger] self.att(i, i) >= 0
        &&& forall|i: int| 0 <= i < self.n() ==> #[trigger] self.minr(i, i) == DIAMETER
    }

    /// Builds a model of `types` types from a configuration and the caller's
    /// normal attraction draws (one per ordered pair, row-major).
    pub fn new(types: u8, params: &Params, draws: &Vec<i64>) -> (r: Result<
        ParticleTypes,
        ConfigError,
    >)
        requires
            types >= 1,
            draws@.len() >= (types as int) * (types as int),
            forall|k: int| 0 <= k < draws@.len() ==> iabs(#[trigger] draws@[k] as int) <= LIMIT,
        ensures
            r is Ok <==> params.valid(),
            r is Ok ==> {
                let pt = r->Ok_0;
                &&& pt.wf()
                &&& pt.n() == types as int
                &&& forall|a: int, b: int|
                    0 <= a < types as int && 0 <= b < types as int ==> #[trigger] pt.att(a, b)
                        == att_from_draws(draws@, types as int, a, b)
                &&& forall|a: int, b: int|
                    #![trigger pt.minr(a, b)]
                    (0 <= a && a < types as int && 0 <= b && b < types as int && a != b) ==> ((
                    pt.minr(a, b) >= params.min_radius_lower) && (pt.minr(a, b) == DIAMETER
                        || pt.minr(a, b) <= params.min_radius_upper))
                &&& forall|a: int, b: int|
                    #![trigger pt.maxr(a, b)]
                    (0 <= a && a < types as int && 0 <= b && b < types as int) ==> ((pt.maxr(a, b)
                        >= params.max_radius_lower) && (pt.maxr(a, b) == pt.minr(a, b) || pt.maxr(
                        a,
                        b,
                    ) <= params.max_radius_upper))
            },
    {
        let mut pt = ParticleTypes {
            attraction: Vec::new(),
            min_radius: Vec::new(),
            max_radius: Vec::new(),
        };
        pt.resize(types);
        match pt.randomize(params, draws) {
            Ok(()) => Ok(pt),
            Err(e) => Err(e),
        }
    }

    /// Rebuilds the matrices at `types` by `types`, zero-filled; the model
    /// must be randomized before use.
    pub fn resize(&mut self, types: u8)
        ensures
            final(self).sized(),
            final(self).n() == types as int,
            forall|a: int, b: int|
                0 <= a < types as int && 0 <= b < types as int ==> #[trigger] final(self).att(a, b)
                    == 0 && final(self).minr(a, b) == 0 && final(self).maxr(a, b) == 0,
    {
        let n = types as usize;
        self.attraction = zero_matrix(n);
        self.min_radius = zero_matrix(n);
        self.max_radius = zero_matrix(n);
    }

    /// Number of types.
    pub fn size(&self) -> (r: usize)
        ensures
            r == self.n(),
    {
        self.attraction.len()
    }

    /// Regenerates the matrices from the configuration. The uniform radius
    /// draws are made internally; `draws` supplies the caller's normally
    /// distributed attraction draws, one per ordered pair in row-major
    /// order. Immediately after filling `(i, j)` the radius entries are
    /// mirrored to `(j, i)`, so the cutoff matrices end symmetric while the
    /// attraction matrix keeps its independent draws.
    pub fn randomize(&mut self, params: &Params, draws: &Vec<i64>) -> (r: Result<(), ConfigError>)
        requires
            old(self).sized(),
            1 <= old(self).n() <= 255,
            draws@.len() >= old(self).n() * old(self).n(),
            forall|k: int| 0 <= k < draws@.len() ==> iabs(#[trigger] draws@[k] as int) <= LIMIT,
        ensures
            r is Ok <==> params.valid(),
            !params.valid() ==> *final(self) == *old(self),
            params.std_attraction <= 0 ==> r == Result::<(), ConfigError>::Err(
                ConfigError::NonPositiveStd,
            ),
            params.std_attraction > 0 && !params.ranges_ordered() ==> r == Result::<
                (),
                ConfigError,
            >::Err(ConfigError::InvertedRange),
            params.std_attraction > 0 && params.ranges_ordered() && !params.in_bounds() ==> r
                == Result::<(), ConfigError>::Err(ConfigError::OutOfBounds),
            r is Ok ==> {
                &&& final(self).wf()
                &&& final(self).n() == old(self).n()
                &&& forall|a: int, b: int|
                    0 <= a < old(self).n() && 0 <= b < old(self).n() ==> #[trigger] final(self).att(
                        a,
                        b,
                    ) == att_from_draws(draws@, old(self).n(), a, b)
                &&& forall|a: int, b: int|
                    #![trigger final(self).minr(a, b)]
                    (0 <= a && a < old(self).n() && 0 <= b && b < old(self).n() && a != b) ==> ((final(self).minr(a, b) >= params.min_radius_lower) && (final(self).minr(a, b) == DIAMETER || final(self).minr(a, b) <= params.min_radius_upper))
                &&& forall|a: int, b: int|
                    #![trigger final(self).maxr(a, b)]
                    (0 <= a && a < old(self).n() && 0 <= b && b < old(self).n()) ==> ((final(self).maxr(a, b) >= params.max_radius_lower) && (final(self).maxr(a, b) == final(self).minr(a, b) || final(self).maxr(a, b) <= params.max_radius_upper))
            },
    {
        match params.validate() {
            Err(e) => {
                return Err(e);
            },
            Ok(()) => {},
        }
        let n = self.size();
        let ghost n_ = n as int;
        let mut rng = fresh_rng();
        let mut i: usize = 0;
        while i < n
            invariant
                0 <= i <= n,
                n == self.n(),
                1 <= n <= 255,
                self.sized(),
                params.valid(),
                draws@.len() >= n_ * n_,
                n_ == n as int,
                forall|k: int| 0 <= k < draws@.len() ==> iabs(#[trigger] draws@[k] as int) <= LIMIT,
                forall|a: int, b: int|
                    0 <= a < n_ && 0 <= b < n_ && (pair_done(i as int, 0, a, b) || pair_done(
                        i as int,
                        0,
                        b,
                        a,
                    )) ==> DIAMETER <= #[trigger] self.minr(a, b) && self.minr(a, b) <= self.maxr(
                        a,
                        b,
                    ) && self.maxr(a, b) <= LIMIT,
                forall|a: int, b: int|
                    0 <= a < n_ && 0 <= b < n_ && a != b && (pair_done(i as int, 0, a, b)
                        || pair_done(i as int, 0, b, a)) ==> #[trigger] self.minr(a, b)
                        >= params.min_radius_lower && (self.minr(a, b) == DIAMETER
                        || self.minr(a, b) <= params.min_radius_upper),
                forall|a: int, b: int|
                    0 <= a < n_ && 0 <= b < n_ && (pair_done(i as int, 0, a, b) || pair_done(
                        i as int,
                        0,
                        b,
                        a,
                    )) ==> #[trigger] self.maxr(a, b) >= params.max_radius_lower && (self.maxr(a, b)
                        == self.minr(a, b) || self.maxr(a, b) <= params.max_radius_upper),
                forall|a: int, b: int|
                    0 <= a < n_ && 0 <= b < n_ && pair_done(i as int, 0, a, b)
                        ==> #[trigger] self.att(a, b) == att_from_draws(draws@, n_, a, b),
                forall|a: int, b: int|
                    0 <= a < n_ && 0 <= b < n_ && pair_done(i as int, 0, a, b)
                        ==> #[trigger] self.minr(a, b) == self.minr(b, a) && self.maxr(a, b)
                        == self.maxr(b, a),
                forall|a: int|
                    0 <= a < n_ && pair_done(i as int, 0, a, a) ==> #[trigger] self.minr(a, a)
                        == DIAMETER,
            decreases n - i,
        {
            let mut j: usize = 0;
            while j < n
                invariant
                    0 <= i < n,
                    0 <= j <= n,
                    n == self.n(),
                    1 <= n <= 255,
                    self.sized(),
                    params.valid(),
                    draws@.len() >= n_ * n_,
                    n_ == n as int,
                    forall|k: int|
                        0 <= k < draws@.len() ==> iabs(#[trigger] draws@[k] as int) <= LIMIT,
                    forall|a: int, b: int|
                        0 <= a < n_ && 0 <= b < n_ && (pair_done(i as int, j as int, a, b)
                            || pair_done(i as int, j as int, b, a)) ==> DIAMETER
                            <= #[trigger] self.minr(a, b) && self.minr(a, b) <= self.maxr(a, b)
                            && self.maxr(a, b) <= LIMIT,
                    forall|a: int, b: int|
                        0 <= a < n_ && 0 <= b < n_ && a != b && (pair_done(i as int, j as int, a, b)
                            || pair_done(i as int, j as int, b, a)) ==> #[trigger] self.minr(a, b)
                            >= params.min_radius_lower && (self.minr(a, b) == DIAMETER
                            || self.minr(a, b) <= params.min_radius_upper),
                    forall|a: int, b: int|
                        0 <= a < n_ && 0 <= b < n_ && (pair_done(i as int, j as int, a, b)
                            || pair_done(i as int, j as int, b, a)) ==> #[trigger] self.maxr(a, b)
                            >= params.max_radius_lower && (self.maxr(a, b) == self.minr(a, b)
                            || self.maxr(a, b) <= params.max_radius_upper),
                    forall|a: int, b: int|
                        0 <= a < n_ && 0 <= b < n_ && pair_done(i as int, j as int, a, b)
                            ==> #[trigger] self.att(a, b) == att_from_draws(draws@, n_, a, b),
                    forall|a: int, b: int|
                        0 <= a < n_ && 0 <= b < n_ && pair_done(i as int, j as int, a, b)
                            ==> #[trigger] self.minr(a, b) == self.minr(b, a) && self.maxr(a, b)
                            == self.maxr(b, a),
                    forall|a: int|
                        0 <= a < n_ && pair_done(i as int, j as int, a, a) ==> #[trigger] self.minr(
                            a,
                            a,
                        ) == DIAMETER,
                decreases n - j,
            {
                proof {
                    lemma_rowmajor_bound(i as int, j as int, n_);
                    assert(n_ * n_ <= 65025) by (nonlinear_arith)
                        requires
                            1 <= n_ <= 255,
                    ;
                    assert(iabs(draws@[i as int * n_ + j as int] as int) <= LIMIT);
                }
                let d = draws[i * n + j];
                let att_v: i64;
                let min_v: i64;
                if i == j {
                    att_v = abs64(d);
                    min_v = DIAMETER;
                } else {
                    att_v = d;
                    let u = draw_inclusive(&mut rng, params.min_radius_lower,
                        params.min_radius_upper);
                    min_v = if u < DIAMETER {
                        DIAMETER
                    } else {
                        u
                    };
                }
                let m = draw_inclusive(&mut rng, params.max_radius_lower, params.max_radius_upper);
                let max_v = if m < min_v {
                    min_v
                } else {
                    m
                };
                let ghost prev = *self;
                self.attraction[i][j] = att_v;
                self.min_radius[i][j] = min_v;
                self.max_radius[i][j] = max_v;
                self.min_radius[j][i] = min_v;
                self.max_radius[j][i] = max_v;
                proof {
                    let i_ = i as int;
                    let j_ = j as int;
                    assert(self.att(i_, j_) == att_v);
                    assert(self.minr(i_, j_) == min_v && self.minr(j_, i_) == min_v);
                    assert(self.maxr(i_, j_) == max_v && self.maxr(j_, i_) == max_v);
                    assert forall|a: int, b: int|
                        0 <= a < n_ && 0 <= b < n_ && !(a == i_ && b == j_) && !(a == j_ && b
                            == i_) implies #[trigger] self.minr(a, b) == prev.minr(a, b)
                        && self.maxr(a, b) == prev.maxr(a, b) by {}
                    assert forall|a: int, b: int|
                        0 <= a < n_ && 0 <= b < n_ && !(a == i_ && b == j_) implies
                        #[trigger] self.att(a, b) == prev.att(a, b) by {}
                    assert forall|a: int, b: int|
                        0 <= a < n_ && 0 <= b < n_ && (pair_done(i_, j_ + 1, a, b) || pair_done(
                            i_,
                            j_ + 1,
                            b,
                            a,
                        )) implies DIAMETER <= #[trigger] self.minr(a, b) && self.minr(a, b)
                        <= self.maxr(a, b) && self.maxr(a, b) <= LIMIT by {
                        if (a == i_ && b == j_) || (a == j_ && b == i_) {
                        } else {
                            assert(self.minr(a, b) == prev.minr(a, b) && self.maxr(a, b)
                                == prev.maxr(a, b));
                            assert(pair_done(i_, j_, a, b) || pair_done(i_, j_, b, a));
                            assert(DIAMETER <= prev.minr(a, b) && prev.minr(a, b) <= prev.maxr(
                                a,
                                b,
                            ) && prev.maxr(a, b) <= LIMIT);
                        }
                    }
                    assert forall|a: int, b: int|
                        0 <= a < n_ && 0 <= b < n_ && a != b && (pair_done(i_, j_ + 1, a, b)
                            || pair_done(i_, j_ + 1, b, a)) implies #[trigger] self.minr(a, b)
                        >= params.min_radius_lower && (self.minr(a, b) == DIAMETER || self.minr(
                        a,
                        b,
                    ) <= params.min_radius_upper) by {
                        if (a == i_ && b == j_) || (a == j_ && b == i_) {
                        } else {
                            assert(self.minr(a, b) == prev.minr(a, b));
                            assert(pair_done(i_, j_, a, b) || pair_done(i_, j_, b, a));
                            assert(prev.minr(a, b) >= params.min_radius_lower && (prev.minr(a, b)
                                == DIAMETER || prev.minr(a, b) <= params.min_radius_upper));
                        }
                    }
                    assert forall|a: int, b: int|
                        0 <= a < n_ && 0 <= b < n_ && (pair_done(i_, j_ + 1, a, b) || pair_done(
                            i_,
                            j_ + 1,
                            b,
                            a,
                        )) implies #[trigger] self.maxr(a, b) >= params.max_radius_lower && (
                    self.maxr(a, b) == self.minr(a, b) || self.maxr(a, b)
                        <= params.max_radius_upper) by {
                        if (a == i_ && b == j_) || (a == j_ && b == i_) {
                        } else {
                            assert(self.minr(a, b) == prev.minr(a, b) && self.maxr(a, b)
                                == prev.maxr(a, b));
                            assert(pair_done(i_, j_, a, b) || pair_done(i_, j_, b, a));
                            assert(prev.maxr(a, b) >= params.max_radius_lower && (prev.maxr(a, b)
                                == prev.minr(a, b) || prev.maxr(a, b) <= params.max_radius_upper));
                        }
                    }
                    assert forall|a: int, b: int|
                        0 <= a < n_ && 0 <= b < n_ && pair_done(i_, j_ + 1, a, b) implies
                        #[trigger] self.minr(a, b) == self.minr(b, a) && self.maxr(a, b)
                        == self.maxr(b, a) by {
                        if (a == i_ && b == j_) || (a == j_ && b == i_) {
                        } else {
                            assert(self.minr(a, b) == prev.minr(a, b) && self.maxr(a, b)
                                == prev.maxr(a, b));
                            assert(self.minr(b, a) == prev.minr(b, a) && self.maxr(b, a)
                                == prev.maxr(b, a));
                            assert(pair_done(i_, j_, a, b));
                            assert(prev.minr(a, b) == prev.minr(b, a) && prev.maxr(a, b)
                                == prev.maxr(b, a));
                        }
                    }
                }
                j = j + 1;
            }
            proof {
                assert forall|a: int, b: int|
                    0 <= a < n_ && 0 <= b < n_ && pair_done(i as int + 1, 0, a, b) implies
                    #[trigger] self.minr(a, b) == self.minr(b, a) && self.maxr(a, b) == self.maxr(
                    b,
                    a,
                ) by {
                    assert(pair_done(i as int, n_, a, b));
                }
            }
            i = i + 1;
        }
        proof {
            assert forall|a: int, b: int| 0 <= a < n_ && 0 <= b < n_ implies iabs(
                #[trigger] self.att(a, b),
            ) <= LIMIT by {
                lemma_rowmajor_bound(a, b, n_);
            }
            assert forall|a: int| 0 <= a < n_ implies #[trigger] self.att(a, a) >= 0 by {
                lemma_rowmajor_bound(a, a, n_);
            }
            assert forall|a: int, b: int| 0 <= a < n_ && 0 <= b < n_ implies #[trigger] self.maxr(
                a,
                b,
            ) == self.maxr(b, a) by {
                assert(self.minr(a, b) == self.minr(b, a));
            }
        }
        Ok(())
    }

    /// Pure read of the near and far cutoffs of the ordered pair.
    pub fn get_radii(&self, p_type: u8, q_type: u8) -> (r: (i64, i64))
        requires
            self.wf(),
            (p_type as int) < self.n(),
            (q_type as int) < self.n(),
        ensures
            r.0 == self.minr(p_type as int, q_type as int),
            r.1 == self.maxr(p_type as int, q_type as int),
    {
        let i = p_type as usize;
        let j = q_type as usize;
        (self.min_radius[i][j], self.max_radius[i][j])
    }

    /// Pure read of the attraction coefficient of the ordered pair.
    pub fn get_attraction(&self, p_type: u8, q_type: u8) -> (r: i64)
        requires
            self.wf(),
            (p_type as int) < self.n(),
            (q_type as int) < self.n(),
        ensures
            r == self.att(p_type as int, q_type as int),
    {
        self.attraction[p_type as usize][q_type as usize]
    }

    /// The largest far cutoff over all pairs; it sizes neighbor queries.
    pub fn get_max_radius(&self) -> (r: i64)
        requires
            self.wf(),
        ensures
            forall|a: int, b: int|
                0 <= a < self.n() && 0 <= b < self.n() ==> #[trigger] self.maxr(a, b) <= r,
            exists|a: int, b: int|
                0 <= a < self.n() && 0 <= b < self.n() && r == #[trigger] self.maxr(a, b),
            DIAMETER <= r <= LIMIT,
    {
        let n = self.size();
        let mut best = self.max_radius[0][0];
        let ghost mut ba: int = 0;
        let ghost mut bb: int = 0;
        let mut i: usize = 0;
        while i < n
            invariant
                0 <= i <= n,
                n == self.n(),
                self.wf(),
                0 <= ba < n,
                0 <= bb < n,
                best == self.maxr(ba, bb),
                forall|a: int, b: int|
                    0 <= a < n && 0 <= b < n && a < i ==> #[trigger] self.maxr(a, b) <= best,
            decreases n - i,
        {
            let mut j: usize = 0;
            while j < n
                invariant
                    0 <= i < n,
                    0 <= j <= n,
                    n == self.n(),
                    self.wf(),
                    0 <= ba < n,
                    0 <= bb < n,
                    best == self.maxr(ba, bb),
                    forall|a: int, b: int|
                        0 <= a < n && 0 <= b < n && (a < i || (a == i && b < j))
                            ==> #[trigger] self.maxr(a, b) <= best,
                decreases n - j,
            {
                let c = self.max_radius[i][j];
                if c > best {
                    best = c;
                    proof {
                        ba = i as int;
                        bb = j as int;
                    }
                }
                j = j + 1;
            }
            i = i + 1;
        }
        proof {
            assert(DIAMETER <= self.minr(ba, bb));
        }
        best
    }
}

/// A zero-filled `n` by `n` matrix.
fn zero_matrix(n: usize) -> (r: Vec<Vec<i64>>)
    ensures
        r@.len() == n,
        forall|i: int| 0 <= i < n ==> (#[trigger] r@[i])@.len() == n,
        forall|i: int, j: int| 0 <= i < n && 0 <= j < n ==> #[trigger] r@[i]@[j] == 0,
{
    let mut rows: Vec<Vec<i64>> = Vec::new();
    let mut i: usize = 0;
    while i < n
        invariant
            0 <= i <= n,
            rows@.len() == i,
            forall|a: int| 0 <= a < i ==> (#[trigger] rows@[a])@.len() == n,
            forall|a: int, b: int| 0 <= a < i && 0 <= b < n ==> #[trigger] rows@[a]@[b] == 0,
        decreases n - i,
    {
        let mut row: Vec<i64> = Vec::new();
        let mut j: usize = 0;
        while j < n
            invariant
                0 <= j <= n,
                row@.len() == j,
                forall|b: int| 0 <= b < j ==> row@[b] == 0,
            decreases n - j,
        {
            row.push(0);
            j = j + 1;
        }
        rows.push(row);
        i = i + 1;
    }
    rows
}

} // verus!
