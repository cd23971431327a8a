use eulerian_fluid::fixed::{FP_ONE, FP_SAT, fx_add, fx_div, fx_mul, fx_sub};
use eulerian_fluid::fluid::{Field, Fluid};

fn idx(n: usize, i: usize, j: usize) -> usize {
    i * n + j
}

#[test]
fn fixed_point_ops_are_exact_in_range() {
    assert_eq!(fx_add(FP_ONE, FP_ONE), 2 * FP_ONE);
    assert_eq!(fx_sub(FP_ONE, 3 * FP_ONE), -2 * FP_ONE);
    // 1.5 * 2.0 == 3.0
    assert_eq!(fx_mul(3 * FP_ONE / 2, 2 * FP_ONE), 3 * FP_ONE);
    // 3.0 / 2.0 == 1.5
    assert_eq!(fx_div(3 * FP_ONE, 2 * FP_ONE), 3 * FP_ONE / 2);
    // division truncates toward zero
    assert_eq!(fx_div(-FP_ONE, 3 * FP_ONE), -(FP_ONE / 3));
}

#[test]
fn fixed_point_ops_saturate() {
    assert_eq!(fx_add(FP_SAT, FP_SAT), FP_SAT);
    assert_eq!(fx_sub(-FP_SAT, FP_SAT), -FP_SAT);
    assert_eq!(fx_mul(FP_SAT, FP_SAT), FP_SAT);
    assert_eq!(fx_div(FP_SAT, 1), FP_SAT);
}

#[test]
fn new_grid_starts_clean() {
    let f = Fluid::new(1000 * FP_ONE, 8, 6, FP_ONE / 8);
    assert_eq!(f.num_cells, 48);
    for k in 0..f.num_cells {
        assert_eq!(f.u[k], 0);
        assert_eq!(f.v[k], 0);
        assert_eq!(f.p[k], 0);
        assert_eq!(f.s[k], 0);
        assert_eq!(f.m[k], FP_ONE);
    }
}

#[test]
fn integrate_applies_gravity_only_between_fluid_cells() {
    let mut f = Fluid::new(1000 * FP_ONE, 6, 6, FP_ONE / 6);
    // tank-like mask: left and right columns and bottom row solid
    for i in 0..6 {
        for j in 0..6 {
            let solid = i == 0 || i == 5 || j == 0;
            f.s[i * 6 + j] = if solid { 0 } else { FP_ONE };
        }
    }
    let dt = FP_ONE / 60;
    let gravity = -(981 * FP_ONE) / 100;
    f.integrate(dt, gravity);
    let g = (gravity as i128 * dt as i128 / FP_ONE as i128) as i64;
    assert!(g < 0);
    // cell just above the bottom wall: its lower neighbour is solid
    assert_eq!(f.v[idx(f.num_y, 2, 1)], 0);
    // interior cell with a fluid cell below
    assert_eq!(f.v[idx(f.num_y, 2, 2)], g);
    // solid column keeps zero velocity
    assert_eq!(f.v[idx(f.num_y, 0, 2)], 0);
}

#[test]
fn sampling_is_exact_at_staggered_points() {
    let h = FP_ONE / 6;
    let mut f = Fluid::new(1000 * FP_ONE, 6, 6, h);
    f.u[idx(f.num_y, 2, 2)] = 4242;
    f.v[idx(f.num_y, 3, 2)] = -777;
    // u lives at (i*h, j*h + h/2)
    let got_u = f.sample_field(2 * h, 2 * h + h / 2, Field::U);
    assert_eq!(got_u, 4242);
    // v lives at (i*h + h/2, j*h)
    let got_v = f.sample_field(3 * h + h / 2, 2 * h, Field::V);
    assert_eq!(got_v, -777);
    // the smoke starts at one everywhere, and is sampled at cell centres
    let got_m = f.sample_field(2 * h + h / 2, 2 * h + h / 2, Field::S);
    assert_eq!(got_m, FP_ONE);
}

#[test]
fn sampling_clamps_out_of_range_coordinates() {
    let h = FP_ONE / 6;
    let f = Fluid::new(1000 * FP_ONE, 6, 6, h);
    // far outside the domain on every side: must not panic, and the
    // smoke field is one everywhere, so the clamped sample is one
    assert_eq!(f.sample_field(-FP_SAT, -FP_SAT, Field::S), FP_ONE);
    assert_eq!(f.sample_field(FP_SAT, FP_SAT, Field::S), FP_ONE);
}

#[test]
fn extrapolate_copies_boundary_from_interior() {
    let h = FP_ONE / 6;
    let mut f = Fluid::new(1000 * FP_ONE, 6, 6, h);
    for i in 0..6 {
        for j in 0..6 {
            f.u[i * 6 + j] = (100 * i + j) as i64;
            f.v[i * 6 + j] = (200 * i + 3 * j) as i64;
        }
    }
    f.extrapolate();
    for i in 0..6 {
        assert_eq!(f.u[i * 6], f.u[i * 6 + 1]);
        assert_eq!(f.u[i * 6 + 5], f.u[i * 6 + 4]);
    }
    for j in 0..6 {
        assert_eq!(f.v[j], f.v[6 + j]);
        assert_eq!(f.v[5 * 6 + j], f.v[4 * 6 + j]);
    }
}

#[test]
fn extrapolate_is_idempotent() {
    let h = FP_ONE / 6;
    let mut f = Fluid::new(1000 * FP_ONE, 6, 6, h);
    for i in 0..6 {
        for j in 0..6 {
            f.u[i * 6 + j] = (37 * i + 11 * j) as i64 - 80;
            f.v[i * 6 + j] = 91 * (i as i64) - 13 * (j as i64);
        }
    }
    f.extrapolate();
    let u_once = f.u.clone();
    let v_once = f.v.clone();
    f.extrapolate();
    assert_eq!(f.u, u_once);
    assert_eq!(f.v, v_once);
}

#[test]
fn projection_reduces_divergence_at_a_cell() {
    let h = FP_ONE / 5;
    let mut f = Fluid::new(1000 * FP_ONE, 5, 5, h);
    for i in 0..5 {
        for j in 0..5 {
            let solid = i == 0 || i == 4 || j == 0 || j == 4;
            f.s[i * 5 + j] = if solid { 0 } else { FP_ONE };
        }
    }
    // impose a divergence of 1000 raw units at cell (2, 2)
    f.u[idx(f.num_y, 3, 2)] = 1000;
    let div_before = f.u[idx(f.num_y, 3, 2)] - f.u[idx(f.num_y, 2, 2)] + f.v[idx(f.num_y, 2, 3)]
        - f.v[idx(f.num_y, 2, 2)];
    assert_eq!(div_before, 1000);
    f.solve_incompressibility(FP_ONE / 60, 1, (19 * FP_ONE) / 10);
    let div_after = f.u[idx(f.num_y, 3, 2)] - f.u[idx(f.num_y, 2, 2)] + f.v[idx(f.num_y, 2, 3)]
        - f.v[idx(f.num_y, 2, 2)];
    assert!(div_after.abs() < div_before.abs());
}

#[test]
fn projection_skips_solid_and_enclosed_cells() {
    let h = FP_ONE / 5;
    let mut f = Fluid::new(1000 * FP_ONE, 5, 5, h);
    // a single fluid cell fully enclosed by solids: nothing to relieve
    f.s[idx(f.num_y, 2, 2)] = FP_ONE;
    f.u[idx(f.num_y, 3, 2)] = 1000;
    let u_before = f.u.clone();
    let v_before = f.v.clone();
    f.solve_incompressibility(FP_ONE / 60, 3, (19 * FP_ONE) / 10);
    assert_eq!(f.u, u_before);
    assert_eq!(f.v, v_before);
    for k in 0..f.num_cells {
        assert_eq!(f.p[k], 0);
    }
}

#[test]
fn advection_keeps_a_uniform_field_at_rest() {
    let h = FP_ONE / 6;
    let mut f = Fluid::new(1000 * FP_ONE, 6, 6, h);
    for i in 0..6 {
        for j in 0..6 {
            let solid = i == 0 || i == 5 || j == 0 || j == 5;
            f.s[i * 6 + j] = if solid { 0 } else { FP_ONE };
        }
    }
    let m_before = f.m.clone();
    f.advect_vel(FP_ONE / 60);
    f.advect_smoke(FP_ONE / 60);
    // zero velocity: the backtrace lands on the sample point itself
    assert_eq!(f.m, m_before);
    for k in 0..f.num_cells {
        assert_eq!(f.u[k], 0);
        assert_eq!(f.v[k], 0);
    }
}
