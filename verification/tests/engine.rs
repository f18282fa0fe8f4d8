//! End-to-end tests of the engine on concrete values. All quantities are in
//! fixed-point units: 1000 sub-units per world unit.

use particle_life::fixed::{abs64, div_floor, isqrt, mod_floor, sat_add, DIAMETER, LIMIT};
use particle_life::params::{ConfigError, Params};
use particle_life::particles::{Particle, ParticleTypes, Vec2Fix};
use particle_life::universe::{
    accumulate_forces, integrate, pair_force, wrap_delta, ParticleBuckets, Universe,
};

fn base_params() -> Params {
    Params {
        mean_attraction: 0,
        std_attraction: 40,
        min_radius_lower: 2000,
        min_radius_upper: 8000,
        max_radius_lower: 10000,
        max_radius_upper: 40000,
        friction: 50,
        wrap: true,
    }
}

/// A model whose radii are pinned by degenerate (equal-bound) ranges, so
/// every off-diagonal cutoff pair is exactly (min_r, max_r).
fn pinned_types(n: u8, min_r: i64, max_r: i64, draws: &Vec<i64>) -> (ParticleTypes, Params) {
    let params = Params {
        mean_attraction: 0,
        std_attraction: 40,
        min_radius_lower: min_r,
        min_radius_upper: min_r,
        max_radius_lower: max_r,
        max_radius_upper: max_r,
        friction: 0,
        wrap: false,
    };
    let pt = ParticleTypes::new(n, &params, draws).unwrap();
    (pt, params)
}

fn particle(x: i64, y: i64, vx: i64, vy: i64, typ: u8) -> Particle {
    Particle {
        pos: Vec2Fix { x, y },
        vel: Vec2Fix { x: vx, y: vy },
        typ,
    }
}

#[test]
fn radius_matrices_are_symmetric_after_randomize() {
    let n: usize = 4;
    let draws: Vec<i64> = (0..n * n).map(|k| (k as i64 * 37) % 2001 - 1000).collect();
    let pt = ParticleTypes::new(n as u8, &base_params(), &draws).unwrap();
    for i in 0..n as u8 {
        for j in 0..n as u8 {
            let (min_ij, max_ij) = pt.get_radii(i, j);
            let (min_ji, max_ji) = pt.get_radii(j, i);
            assert_eq!(min_ij, min_ji);
            assert_eq!(max_ij, max_ji);
        }
    }
}

#[test]
fn attraction_keeps_its_asymmetric_draws() {
    // draws[0..4] row-major for 2 types: (0,1) gets 111, (1,0) gets -222.
    let draws: Vec<i64> = vec![500, 111, -222, -333];
    let pt = ParticleTypes::new(2, &base_params(), &draws).unwrap();
    assert_eq!(pt.get_attraction(0, 1), 111);
    assert_eq!(pt.get_attraction(1, 0), -222);
    // diagonal takes the absolute value of its draw
    assert_eq!(pt.get_attraction(0, 0), 500);
    assert_eq!(pt.get_attraction(1, 1), 333);
}

#[test]
fn radii_respect_range_invariants() {
    let n: usize = 5;
    let draws: Vec<i64> = (0..n * n).map(|k| k as i64 - 12).collect();
    let pt = ParticleTypes::new(n as u8, &base_params(), &draws).unwrap();
    for i in 0..n as u8 {
        for j in 0..n as u8 {
            let (min_r, max_r) = pt.get_radii(i, j);
            assert!(min_r >= DIAMETER);
            assert!(max_r >= min_r);
            if i != j {
                // drawn from the configured uniform ranges
                assert!(2000 <= min_r && min_r <= 8000);
            }
            assert!(10_000 <= max_r && max_r <= 40_000);
        }
    }
}

#[test]
fn diagonal_near_cutoff_is_one_diameter() {
    let draws: Vec<i64> = vec![0; 9];
    let pt = ParticleTypes::new(3, &base_params(), &draws).unwrap();
    for i in 0..3u8 {
        assert_eq!(pt.get_radii(i, i).0, DIAMETER);
    }
}

#[test]
fn degenerate_uniform_ranges_pin_the_radii() {
    let draws: Vec<i64> = vec![0; 4];
    let (pt, _) = pinned_types(2, 5000, 20000, &draws);
    assert_eq!(pt.get_radii(0, 1), (5000, 20000));
    assert_eq!(pt.get_radii(1, 0), (5000, 20000));
    assert_eq!(pt.get_max_radius(), 20000);
}

#[test]
fn resize_changes_the_type_count() {
    let draws4: Vec<i64> = vec![1, 2, 3, 4];
    let mut pt = ParticleTypes::new(2, &base_params(), &draws4).unwrap();
    assert_eq!(pt.size(), 2);
    pt.resize(5);
    assert_eq!(pt.size(), 5);
    let draws25: Vec<i64> = (0..25).collect();
    pt.randomize(&base_params(), &draws25).unwrap();
    for i in 0..5u8 {
        for j in 0..5u8 {
            let (min_r, max_r) = pt.get_radii(i, j);
            assert!(DIAMETER <= min_r && min_r <= max_r);
        }
    }
}

#[test]
fn config_error_non_positive_std() {
    let mut p = base_params();
    p.std_attraction = 0;
    let draws: Vec<i64> = vec![0; 4];
    assert_eq!(
        ParticleTypes::new(2, &p, &draws).unwrap_err(),
        ConfigError::NonPositiveStd
    );
}

#[test]
fn config_error_inverted_range() {
    let mut p = base_params();
    p.min_radius_lower = 9000;
    p.min_radius_upper = 2000;
    let draws: Vec<i64> = vec![0; 4];
    assert_eq!(
        ParticleTypes::new(2, &p, &draws).unwrap_err(),
        ConfigError::InvertedRange
    );
}

#[test]
fn config_error_out_of_bounds() {
    let mut p = base_params();
    p.max_radius_upper = LIMIT + 1;
    let draws: Vec<i64> = vec![0; 4];
    assert_eq!(
        ParticleTypes::new(2, &p, &draws).unwrap_err(),
        ConfigError::OutOfBounds
    );
}

#[test]
fn no_force_at_zero_distance() {
    let draws: Vec<i64> = vec![1000];
    let (pt, _) = pinned_types(1, 1000, 3000, &draws);
    assert_eq!(pair_force(&pt, 0, 0, 0, 0), (0, 0));
    // still under the 0.01 square-unit threshold at distance 0.05 units
    assert_eq!(pair_force(&pt, 0, 0, 50, 0), (0, 0));
    assert_eq!(pair_force(&pt, 0, 0, 0, 99), (0, 0));
}

#[test]
fn tent_peak_equals_attraction_exactly() {
    // one type: min cutoff is the diameter (1.0), far cutoff pinned at 3.0,
    // attraction 1.0; at the midpoint distance 2.0 the magnitude is exactly
    // the coefficient, directed along the separation axis.
    let draws: Vec<i64> = vec![1000];
    let (pt, _) = pinned_types(1, 1000, 3000, &draws);
    assert_eq!(pair_force(&pt, 0, 0, 2000, 0), (1000, 0));
    assert_eq!(pair_force(&pt, 0, 0, -2000, 0), (-1000, 0));
    assert_eq!(pair_force(&pt, 0, 0, 0, 2000), (0, 1000));
}

#[test]
fn zero_force_at_both_cutoffs() {
    let draws: Vec<i64> = vec![1000];
    let (pt, _) = pinned_types(1, 1000, 3000, &draws);
    // at the far cutoff the tent reaches zero
    assert_eq!(pair_force(&pt, 0, 0, 3000, 0), (0, 0));
    // just outside the far cutoff nothing is contributed either
    assert_eq!(pair_force(&pt, 0, 0, 3001, 0), (0, 0));
}

#[test]
fn wrap_minimal_distance() {
    // width 100 units, raw displacement 98 units -> corrected to -2 units
    assert_eq!(wrap_delta(98_000, 100_000, true), -2000);
    assert_eq!(wrap_delta(-98_000, 100_000, true), 2000);
    assert_eq!(wrap_delta(98_000, 100_000, false), 98_000);
    // within half the extent the displacement is untouched
    assert_eq!(wrap_delta(40_000, 100_000, true), 40_000);
}

#[test]
fn wrapped_pair_attracts_as_if_two_units_apart() {
    // particles at x=1 and x=99 in a width-100 wrapping world: the force is
    // that of a pair two units apart, pulling across the seam.
    let draws: Vec<i64> = vec![1000];
    let (pt, _) = pinned_types(1, 1000, 3000, &draws);
    let d = wrap_delta(99_000 - 1000, 100_000, true);
    assert_eq!(d, -2000);
    assert_eq!(pair_force(&pt, 0, 0, d, 0), (-1000, 0));
}

#[test]
fn collision_regime_repels_regardless_of_attraction_sign() {
    // distance 0.5 units, near cutoff 1.0: the collision-avoidance term
    // pushes the particles apart for positive and negative attraction alike.
    let attract: Vec<i64> = vec![1000];
    let (pt_pos, _) = pinned_types(1, 1000, 3000, &attract);
    let f = pair_force(&pt_pos, 0, 0, 500, 0);
    assert!(f.0 < 0, "expected repulsion, got {:?}", f);

    let repel: Vec<i64> = vec![-1000];
    let (pt_neg, _) = pinned_types(1, 1000, 3000, &repel);
    let g = pair_force(&pt_neg, 0, 0, 500, 0);
    assert!(g.0 < 0, "expected repulsion, got {:?}", g);
}

#[test]
fn step_preserves_count_and_types() {
    let n: usize = 3;
    let draws: Vec<i64> = (0..n * n).map(|k| k as i64 * 11 - 40).collect();
    let pt = ParticleTypes::new(n as u8, &base_params(), &draws).unwrap();
    let universe = Universe::new(100_000, 100_000);
    let particles = vec![
        particle(10_000, 20_000, 100, -100, 0),
        particle(50_000, 50_000, 0, 0, 1),
        particle(99_000, 1000, -300, 250, 2),
        particle(10_500, 20_500, 0, 0, 1),
    ];
    let next = universe.step(&pt, &base_params(), &particles);
    assert_eq!(next.len(), particles.len());
    for (p, q) in particles.iter().zip(next.iter()) {
        assert_eq!(p.typ, q.typ);
    }
}

#[test]
fn step_keeps_positions_inside_wrapping_world() {
    let draws: Vec<i64> = vec![0, 10, -10, 5];
    let pt = ParticleTypes::new(2, &base_params(), &draws).unwrap();
    let universe = Universe::new(100_000, 80_000);
    let mut params = base_params();
    params.wrap = true;
    let particles = vec![
        particle(99_900, 100, 5000, -5000, 0),
        particle(0, 79_999, -12_345, 98_765, 1),
        particle(50_000, 40_000, 1_000_000, -1_000_000, 0),
    ];
    let next = universe.step(&pt, &params, &particles);
    for q in next.iter() {
        assert!(0 <= q.pos.x && q.pos.x < 100_000, "x out of range: {}", q.pos.x);
        assert!(0 <= q.pos.y && q.pos.y < 80_000, "y out of range: {}", q.pos.y);
    }
}

#[test]
fn two_particles_one_tick_scenario() {
    // attraction 1.0, cutoffs 1.0 and 3.0, friction 0, walls (no wrap);
    // particles at (10,10) and (12,10) sit exactly at the tent midpoint, so
    // each gains velocity 1.0 toward the other in one tick.
    let draws: Vec<i64> = vec![1000];
    let (pt, params) = pinned_types(1, 1000, 3000, &draws);
    let universe = Universe::new(100_000, 100_000);
    let start = vec![
        particle(10_000, 10_000, 0, 0, 0),
        particle(12_000, 10_000, 0, 0, 0),
    ];
    let after_one = universe.step(&pt, &params, &start);
    assert_eq!(after_one[0].vel, Vec2Fix { x: 1000, y: 0 });
    assert_eq!(after_one[1].vel, Vec2Fix { x: -1000, y: 0 });
    assert_eq!(after_one[0].pos, Vec2Fix { x: 11_000, y: 10_000 });
    assert_eq!(after_one[1].pos, Vec2Fix { x: 11_000, y: 10_000 });

    // coincident now, so no further force; with zero friction the second
    // tick advances each particle by its accumulated velocity exactly.
    let after_two = universe.step(&pt, &params, &after_one);
    assert_eq!(after_two[0].vel, Vec2Fix { x: 1000, y: 0 });
    assert_eq!(after_two[1].vel, Vec2Fix { x: -1000, y: 0 });
    assert_eq!(after_two[0].pos, Vec2Fix { x: 12_000, y: 10_000 });
    assert_eq!(after_two[1].pos, Vec2Fix { x: 10_000, y: 10_000 });
}

#[test]
fn integrate_wraps_and_damps() {
    let mut params = base_params();
    params.wrap = true;
    params.friction = 100;  // 0.1
    let p = particle(99_500, 200, 1000, -1000, 0);
    let q = integrate(&p, 100_000, 100_000, &params);
    assert_eq!(q.pos, Vec2Fix { x: 500, y: 99_200 });
    assert_eq!(q.vel, Vec2Fix { x: 900, y: -900 });
    assert_eq!(q.typ, 0);
}

#[test]
fn integrate_reflects_at_inset_walls() {
    let mut params = base_params();
    params.wrap = false;
    params.friction = 0;
    let p = particle(1200, 50_000, -1000, 0, 0);
    let q = integrate(&p, 100_000, 100_000, &params);
    // crossed the wall inset by the particle radius: clamped and bounced
    assert_eq!(q.pos.x, 500);
    assert_eq!(q.vel.x, 1000);
    assert_eq!(q.pos.y, 50_000);
    assert_eq!(q.vel.y, 0);
}

#[test]
fn neighbor_lookup_wraps_even_without_world_wrap() {
    // grid index lookup is toroidal regardless of the boundary policy: a
    // query near the left edge reaches buckets at the right edge.
    let near_left = particle(1000, 50_000, 0, 0, 0);
    let near_right = particle(99_000, 50_000, 0, 0, 0);
    let all = vec![near_left, near_right];
    let grid = ParticleBuckets::new(&all, 100_000, 100_000, 32);
    let found = grid.get_neighbors(Vec2Fix { x: 1000, y: 50_000 }, 5000);
    assert!(found.iter().any(|p| p.pos.x == 99_000),
        "expected the right-edge particle in a left-edge query");
}

#[test]
fn neighbor_in_outermost_covering_cell_is_found() {
    // a neighbor exactly at the query radius can sit in the last cell the
    // disc touches; the covering range must include it.
    let center = particle(50_000, 50_000, 0, 0, 0);
    let at_radius = particle(53_000, 50_000, 0, 0, 0);
    let all = vec![center, at_radius];
    let grid = ParticleBuckets::new(&all, 100_000, 100_000, 32);
    let found = grid.get_neighbors(Vec2Fix { x: 50_000, y: 50_000 }, 3000);
    assert!(found.iter().any(|p| p.pos.x == 53_000));
}

#[test]
fn create_particles_respects_world_and_draws() {
    let draws: Vec<i64> = (0..9).map(|k| k * 7 - 20).collect();
    let pt = ParticleTypes::new(3, &base_params(), &draws).unwrap();
    let universe = Universe::new(50_000, 30_000);
    let vel_draws: Vec<i64> = (0..20).map(|k| k * 13 - 130).collect();
    let created = universe.create_particles(&pt, 10, &vel_draws);
    assert_eq!(created.len(), 10);
    for (k, p) in created.iter().enumerate() {
        assert!(0 <= p.pos.x && p.pos.x < 50_000);
        assert!(0 <= p.pos.y && p.pos.y < 30_000);
        assert!(p.typ < 3);
        assert_eq!(p.vel.x, vel_draws[2 * k]);
        assert_eq!(p.vel.y, vel_draws[2 * k + 1]);
    }
}

#[test]
fn accumulate_folds_each_neighbor_in_turn() {
    let draws: Vec<i64> = vec![1000];
    let (pt, _) = pinned_types(1, 1000, 3000, &draws);
    let p = particle(50_000, 50_000, 10, 20, 0);
    let neighbors = vec![
        particle(52_000, 50_000, 0, 0, 0), // tent midpoint to the right: +1.0 on x
        particle(48_000, 50_000, 0, 0, 0), // and to the left: -1.0 on x, cancelling
        particle(50_000, 52_000, 0, 0, 0), // above: +1.0 on y
        particle(50_000, 50_000, 0, 0, 0), // coincident: contributes nothing
    ];
    let r = accumulate_forces(&p, &neighbors, &pt, 100_000, 100_000, false);
    assert_eq!(r.vel, Vec2Fix { x: 10, y: 1020 });
    assert_eq!(r.pos, p.pos);
    assert_eq!(r.typ, 0);

    // with wrap, a neighbor across the seam pulls backward
    let edge = particle(1000, 50_000, 0, 0, 0);
    let across = vec![particle(99_000, 50_000, 0, 0, 0)];
    let s = accumulate_forces(&edge, &across, &pt, 100_000, 100_000, true);
    assert_eq!(s.vel, Vec2Fix { x: -1000, y: 0 });
}

#[test]
fn fixed_point_helpers_are_exact() {
    assert_eq!(isqrt(0), 0);
    assert_eq!(isqrt(99), 9);
    assert_eq!(isqrt(100), 10);
    assert_eq!(isqrt(4_000_000), 2000);
    assert_eq!(div_floor(-7, 2), -4);
    assert_eq!(div_floor(7, 2), 3);
    assert_eq!(mod_floor(-3, 10), 7);
    assert_eq!(mod_floor(23, 10), 3);
    assert_eq!(sat_add(i64::MAX, 1), i64::MAX);
    assert_eq!(sat_add(i64::MIN + 1, -1), -i64::MAX);
    assert_eq!(sat_add(3, 4), 7);
    assert_eq!(abs64(-5), 5);
}
