//! Laws of the solver, stated and proved over the grid views: the binary
//! mask invariant, idempotence of boundary extrapolation, exactness of the
//! bilinear sampler at a field's own staggered grid points, the sampler's
//! unit-range preservation (which keeps the smoke density in `[0, 1]`
//! through advection), and the divergence reduction of one Gauss-Seidel
//! relaxation.

use vstd::prelude::*;
use crate::fixed::{
    FP_ONE, FP_SAT, fx_in_range, tdiv, fxs_mul, fxs_sub, lemma_tdiv_multiple, lemma_tdiv_bound,
    lemma_tdiv_superadd,
};
use crate::fluid::{
    Fluid, FluidModel, Field, FlowState, mask_binary, nbr_count, div_at, relax_cell,
    extrapolate_m, extrap_u, extrap_v, sample_at, sample_field_at, clamp_spec, min_spec,
    lemma_axis, lemma_cell_index, advect_smoke_m, adv_m_applies, all_in_range,
};

verus! {

/// The solid mask holds exactly zero (solid) or one (fluid) in every
/// cell of a well-formed grid, at all times: every constructor and every
/// pass of the pipeline ensures well-formedness again.
pub proof fn lemma_mask_invariant(f: Fluid)
    requires
        f.wf(),
    ensures
        forall|k: int| 0 <= k < f.s@.len() ==> (#[trigger] f.s@[k]) == 0 || f.s@[k] == FP_ONE,
{
    assert(mask_binary(f.model().s));
}

/// Boundary extrapolation is idempotent: applying it twice to a
/// well-formed grid gives the same fields as applying it once, because
/// the copied boundary values come from interior positions that the pass
/// leaves unchanged.
#[verifier::rlimit(100)]
pub proof fn lemma_extrapolate_idempotent(fm: FluidModel)
    requires
        fm.wf(),
    ensures
        extrapolate_m(extrapolate_m(fm)) == extrapolate_m(fm),
{
    let ny = fm.ny;
    let nx = fm.nx;
    let u1 = extrap_u(fm.u, ny);
    let v1 = extrap_v(fm.v, nx, ny);
    assert forall|k: int| 0 <= k < u1.len() implies extrap_u(u1, ny)[k] == u1[k] by {
        vstd::arithmetic::div_mod::lemma_fundamental_div_mod(k, ny);
        vstd::arithmetic::div_mod::lemma_mod_bound(k, ny);
        vstd::arithmetic::div_mod::lemma_div_pos_is_pos(k, ny);
        let q = k / ny;
        assert(ny * q == q * ny) by (nonlinear_arith);
        if k % ny == 0 {
            vstd::arithmetic::div_mod::lemma_fundamental_div_mod_converse(k + 1, ny, q, 1);
            assert(k + 1 < fm.nx * ny) by (nonlinear_arith)
                requires
                    k == ny * q,
                    0 <= q,
                    k < fm.nx * ny,
                    3 <= ny,
            ;
        } else if k % ny == ny - 1 {
            vstd::arithmetic::div_mod::lemma_fundamental_div_mod_converse(k - 1, ny, q, ny - 2);
        }
    }
    assert(extrap_u(u1, ny) =~= u1);
    assert forall|k: int| 0 <= k < v1.len() implies extrap_v(v1, nx, ny)[k] == v1[k] by {
        vstd::arithmetic::div_mod::lemma_fundamental_div_mod(k, ny);
        vstd::arithmetic::div_mod::lemma_mod_bound(k, ny);
        vstd::arithmetic::div_mod::lemma_div_pos_is_pos(k, ny);
        if k / ny == 0 {
            assert(ny * (k / ny) == 0) by (nonlinear_arith)
                requires
                    k / ny == 0,
            ;
            assert(k == k % ny);
            vstd::arithmetic::div_mod::lemma_fundamental_div_mod_converse(k + ny, ny, 1, k % ny);
            assert(k + ny < nx * ny) by (nonlinear_arith)
                requires
                    0 <= k < ny,
                    3 <= nx,
                    3 <= ny,
            ;
        } else if k / ny == nx - 1 {
            assert(ny * (nx - 1) - ny == (nx - 2) * ny && ny * (nx - 1) == (nx - 1) * ny)
                by (nonlinear_arith);
            vstd::arithmetic::div_mod::lemma_fundamental_div_mod_converse(
                k - ny,
                ny,
                nx - 2,
                k % ny,
            );
            assert(0 <= k - ny) by (nonlinear_arith)
                requires
                    k == ny * (nx - 1) + k % ny,
                    0 <= k % ny,
                    3 <= nx,
                    3 <= ny,
            ;
        }
    }
    assert(extrap_v(v1, nx, ny) =~= v1);
    assert(extrapolate_m(extrapolate_m(fm)) =~= extrapolate_m(fm));
}

/// Multiplying by the fixed-point one is the identity on in-range values.
proof fn lemma_mul_one(a: int)
    requires
        fx_in_range(a),
    ensures
        fxs_mul(FP_ONE as int, a) == a,
{
    lemma_tdiv_multiple(a, FP_ONE as int);
    assert(FP_ONE as int * a == a * (FP_ONE as int)) by (nonlinear_arith);
}

/// Multiplying by zero gives zero.
proof fn lemma_mul_zero(a: int)
    ensures
        fxs_mul(0, a) == 0,
        fxs_mul(a, 0) == 0,
{
    assert(0 * a == 0 && a * 0 == 0) by (nonlinear_arith);
    lemma_tdiv_multiple(0, FP_ONE as int);
}

/// The degenerate case of the bilinear sampler: queried exactly at the
/// staggered sample point of cell `(i, j)`, both residuals vanish, the
/// weights collapse to one and zero, and the stored value comes back.
#[verifier::spinoff_prover]
#[verifier::rlimit(100)]
proof fn lemma_sample_degenerate(
    f: Seq<i64>,
    nx: int,
    ny: int,
    h: int,
    dx: int,
    dy: int,
    x: int,
    y: int,
    i: int,
    j: int,
)
    requires
        3 <= nx,
        3 <= ny,
        2 <= h,
        nx * h <= FP_SAT,
        ny * h <= FP_SAT,
        f.len() == nx * ny,
        all_in_range(f),
        0 <= dx < h,
        0 <= dy < h,
        0 <= i <= nx - 1,
        0 <= j <= ny - 1,
        x == i * h + dx,
        y == j * h + dy,
        h <= x <= nx * h,
        h <= y <= ny * h,
    ensures
        sample_at(f, nx, ny, h, dx, dy, x, y) == f[i * ny + j] as int,
{
    let fone = FP_ONE as int;
    assert(clamp_spec(x, h, nx * h) == x);
    assert(clamp_spec(y, h, ny * h) == y);
    let xd = x - dx;
    let yd = y - dy;
    assert(xd == i * h && yd == j * h);
    lemma_tdiv_multiple(i, h);
    lemma_tdiv_multiple(j, h);
    assert(tdiv(xd, h) == i && tdiv(yd, h) == j);
    let x0 = min_spec(tdiv(xd, h), nx - 1);
    let y0 = min_spec(tdiv(yd, h), ny - 1);
    assert(x0 == i && y0 == j);
    assert((xd - x0 * h) * fone == 0 && (yd - y0 * h) * fone == 0);
    lemma_tdiv_multiple(0, h);
    assert(tdiv((xd - x0 * h) * fone, h) == 0 && tdiv((yd - y0 * h) * fone, h) == 0);
    let x1 = min_spec(x0 + 1, nx - 1);
    let y1 = min_spec(y0 + 1, ny - 1);
    lemma_cell_index(x0, y0, nx, ny);
    lemma_cell_index(x1, y0, nx, ny);
    lemma_cell_index(x1, y1, nx, ny);
    lemma_cell_index(x0, y1, nx, ny);
    lemma_mul_one(fone);
    lemma_mul_zero(fone);
    lemma_mul_one(f[x0 * ny + y0] as int);
    lemma_mul_zero(f[x1 * ny + y0] as int);
    lemma_mul_zero(f[x1 * ny + y1] as int);
    lemma_mul_zero(f[x0 * ny + y1] as int);
}

/// Sampling exactness for the `u` field: evaluated exactly at the
/// staggered grid point of `u[i, j]` (the left face centre), the bilinear
/// weights degenerate and the sampler returns the stored value.
pub proof fn lemma_sample_exact_u(fm: FluidModel, i: int, j: int)
    requires
        fm.wf(),
        1 <= i <= fm.nx - 1,
        1 <= j <= fm.ny - 2,
    ensures
        sample_field_at(fm, i * fm.h, j * fm.h + tdiv(fm.h, 2), Field::U) == fm.u[i * fm.ny
            + j] as int,
{
    let h = fm.h;
    let h2 = tdiv(h, 2);
    vstd::arithmetic::div_mod::lemma_fundamental_div_mod(h, 2);
    vstd::arithmetic::div_mod::lemma_mod_bound(h, 2);
    vstd::arithmetic::div_mod::lemma_div_pos_is_pos(h, 2);
    assert(h <= i * h && i * h <= fm.nx * h && h <= j * h + h2 && j * h + h2 <= fm.ny * h)
        by (nonlinear_arith)
        requires
            2 <= h,
            0 <= h2 < h,
            1 <= i <= fm.nx - 1,
            1 <= j <= fm.ny - 2,
            3 <= fm.nx,
            3 <= fm.ny,
    ;
    lemma_sample_degenerate(fm.u, fm.nx, fm.ny, h, 0, h2, i * h, j * h + h2, i, j);
}

/// Sampling exactness for the `v` field: evaluated exactly at the
/// staggered grid point of `v[i, j]` (the bottom face centre), the
/// sampler returns the stored value.
pub proof fn lemma_sample_exact_v(fm: FluidModel, i: int, j: int)
    requires
        fm.wf(),
        1 <= i <= fm.nx - 2,
        1 <= j <= fm.ny - 1,
    ensures
        sample_field_at(fm, i * fm.h + tdiv(fm.h, 2), j * fm.h, Field::V) == fm.v[i * fm.ny
            + j] as int,
{
    let h = fm.h;
    let h2 = tdiv(h, 2);
    vstd::arithmetic::div_mod::lemma_fundamental_div_mod(h, 2);
    vstd::arithmetic::div_mod::lemma_mod_bound(h, 2);
    vstd::arithmetic::div_mod::lemma_div_pos_is_pos(h, 2);
    assert(h <= i * h + h2 && i * h + h2 <= fm.nx * h && h <= j * h && j * h <= fm.ny * h)
        by (nonlinear_arith)
        requires
            2 <= h,
            0 <= h2 < h,
            1 <= i <= fm.nx - 2,
            1 <= j <= fm.ny - 1,
            3 <= fm.nx,
            3 <= fm.ny,
    ;
    lemma_sample_degenerate(fm.v, fm.nx, fm.ny, h, h2, 0, i * h + h2, j * h, i, j);
}

/// Sampling exactness for the smoke field: evaluated exactly at the cell
/// centre of `m[i, j]`, the sampler returns the stored value.
pub proof fn lemma_sample_exact_m(fm: FluidModel, i: int, j: int)
    requires
        fm.wf(),
        1 <= i <= fm.nx - 2,
        1 <= j <= fm.ny - 2,
    ensures
        sample_field_at(fm, i * fm.h + tdiv(fm.h, 2), j * fm.h + tdiv(fm.h, 2), Field::S)
            == fm.m[i * fm.ny + j] as int,
{
    let h = fm.h;
    let h2 = tdiv(h, 2);
    vstd::arithmetic::div_mod::lemma_fundamental_div_mod(h, 2);
    vstd::arithmetic::div_mod::lemma_mod_bound(h, 2);
    vstd::arithmetic::div_mod::lemma_div_pos_is_pos(h, 2);
    assert(h <= i * h + h2 && i * h + h2 <= fm.nx * h && h <= j * h + h2 && j * h + h2 <= fm.ny
        * h) by (nonlinear_arith)
        requires
            2 <= h,
            0 <= h2 < h,
            1 <= i <= fm.nx - 2,
            1 <= j <= fm.ny - 2,
            3 <= fm.nx,
            3 <= fm.ny,
    ;
    lemma_sample_degenerate(fm.m, fm.nx, fm.ny, h, h2, h2, i * h + h2, j * h + h2, i, j);
}

/// A truncated fixed-point product of a weight in `[0, one]` and a value
/// in `[0, one]` stays in `[0, weight]`.
proof fn lemma_weighted_term(w: int, a: int)
    requires
        0 <= w <= FP_ONE,
        0 <= a <= FP_ONE,
    ensures
        0 <= fxs_mul(w, a) <= w,
{
    let f = FP_ONE as int;
    assert(0 <= w * a <= w * f) by (nonlinear_arith)
        requires
            0 <= w,
            0 <= a <= f,
    ;
    vstd::arithmetic::div_mod::lemma_div_pos_is_pos(w * a, f);
    vstd::arithmetic::div_mod::lemma_div_is_ordered(w * a, w * f, f);
    lemma_tdiv_multiple(w, f);
}

/// The bilinear sampler maps a field with values in `[0, one]` into
/// `[0, one]`: the four weights are non-negative and sum to at most one,
/// so the interpolated value can neither undershoot nor overshoot. This
/// is what keeps the smoke density a unit-range scalar through every
/// advection pass.
#[verifier::spinoff_prover]
#[verifier::rlimit(100)]
pub proof fn lemma_sample_unit_range(
    f: Seq<i64>,
    nx: int,
    ny: int,
    h: int,
    dx: int,
    dy: int,
    x: int,
    y: int,
)
    requires
        3 <= nx <= 30000,
        3 <= ny <= 30000,
        2 <= h,
        nx * h <= FP_SAT,
        ny * h <= FP_SAT,
        f.len() == nx * ny,
        forall|k: int| 0 <= k < f.len() ==> 0 <= #[trigger] f[k] <= FP_ONE,
        0 <= dx < h,
        0 <= dy < h,
    ensures
        0 <= sample_at(f, nx, ny, h, dx, dy, x, y) <= FP_ONE,
{
    let fone = FP_ONE as int;
    let xd = clamp_spec(x, h, nx * h) - dx;
    let yd = clamp_spec(y, h, ny * h) - dy;
    assert(h <= nx * h && h <= ny * h) by (nonlinear_arith)
        requires
            3 <= nx,
            3 <= ny,
            0 <= h,
    ;
    lemma_axis(xd, h, nx);
    lemma_axis(yd, h, ny);
    let x0 = min_spec(tdiv(xd, h), nx - 1);
    let y0 = min_spec(tdiv(yd, h), ny - 1);
    let x1 = min_spec(x0 + 1, nx - 1);
    let y1 = min_spec(y0 + 1, ny - 1);
    let rx = xd - x0 * h;
    let ry = yd - y0 * h;
    let tx = tdiv(rx * fone, h);
    let ty = tdiv(ry * fone, h);
    vstd::arithmetic::div_mod::lemma_div_pos_is_pos(rx * fone, h);
    vstd::arithmetic::div_mod::lemma_div_pos_is_pos(ry * fone, h);
    lemma_tdiv_bound(rx * fone, h, fone);
    lemma_tdiv_bound(ry * fone, h, fone);
    assert(rx * fone <= h * fone && ry * fone <= h * fone) by (nonlinear_arith)
        requires
            rx <= h,
            ry <= h,
            0 <= fone,
    ;
    let sx = fone - tx;
    let sy = fone - ty;
    // the four weights are non-negative and pairwise sum to sy and ty
    let w00 = fxs_mul(sx, sy);
    let w10 = fxs_mul(tx, sy);
    let w11 = fxs_mul(tx, ty);
    let w01 = fxs_mul(sx, ty);
    assert(0 <= sx * sy <= fone * fone && 0 <= tx * sy <= fone * fone && 0 <= tx * ty <= fone
        * fone && 0 <= sx * ty <= fone * fone) by (nonlinear_arith)
        requires
            0 <= sx <= fone,
            0 <= sy <= fone,
            0 <= tx <= fone,
            0 <= ty <= fone,
    ;
    vstd::arithmetic::div_mod::lemma_div_pos_is_pos(sx * sy, fone);
    vstd::arithmetic::div_mod::lemma_div_pos_is_pos(tx * sy, fone);
    vstd::arithmetic::div_mod::lemma_div_pos_is_pos(tx * ty, fone);
    vstd::arithmetic::div_mod::lemma_div_pos_is_pos(sx * ty, fone);
    vstd::arithmetic::div_mod::lemma_div_is_ordered(sx * sy, fone * fone, fone);
    vstd::arithmetic::div_mod::lemma_div_is_ordered(tx * sy, fone * fone, fone);
    vstd::arithmetic::div_mod::lemma_div_is_ordered(tx * ty, fone * fone, fone);
    vstd::arithmetic::div_mod::lemma_div_is_ordered(sx * ty, fone * fone, fone);
    lemma_tdiv_multiple(fone, fone);
    assert(fone * fone == fone * fone);
    lemma_tdiv_superadd(sx * sy, tx * sy, fone);
    lemma_tdiv_superadd(tx * ty, sx * ty, fone);
    assert(sx * sy + tx * sy == sy * fone && tx * ty + sx * ty == ty * fone) by (nonlinear_arith)
        requires
            sx == fone - tx,
    ;
    lemma_tdiv_multiple(sy, fone);
    lemma_tdiv_multiple(ty, fone);
    assert(w00 + w10 <= sy && w11 + w01 <= ty);
    // the sampled cells hold unit-range values
    lemma_cell_index(x0, y0, nx, ny);
    lemma_cell_index(x1, y0, nx, ny);
    lemma_cell_index(x1, y1, nx, ny);
    lemma_cell_index(x0, y1, nx, ny);
    lemma_weighted_term(w00, f[x0 * ny + y0] as int);
    lemma_weighted_term(w10, f[x1 * ny + y0] as int);
    lemma_weighted_term(w11, f[x1 * ny + y1] as int);
    lemma_weighted_term(w01, f[x0 * ny + y1] as int);
}

/// The smoke sampler on a well-formed grid whose smoke lies in `[0, one]`
/// returns a value in `[0, one]`, whatever the query point.
#[verifier::spinoff_prover]
#[verifier::rlimit(100)]
pub proof fn lemma_smoke_sample_unit_range(fm: FluidModel, x: int, y: int)
    requires
        fm.wf(),
        forall|k: int| 0 <= k < fm.m.len() ==> 0 <= #[trigger] fm.m[k] <= FP_ONE,
    ensures
        0 <= sample_field_at(fm, x, y, Field::S) <= FP_ONE,
{
    vstd::arithmetic::div_mod::lemma_fundamental_div_mod(fm.h, 2);
    vstd::arithmetic::div_mod::lemma_mod_bound(fm.h, 2);
    vstd::arithmetic::div_mod::lemma_div_pos_is_pos(fm.h, 2);
    lemma_sample_unit_range(
        fm.m,
        fm.nx,
        fm.ny,
        fm.h,
        tdiv(fm.h, 2),
        tdiv(fm.h, 2),
        x,
        y,
    );
}

/// Smoke advection keeps the density a unit-range scalar: if every cell
/// of a well-formed grid holds smoke in `[0, one]`, every cell of the
/// advected grid does too.
#[verifier::spinoff_prover]
#[verifier::rlimit(100)]
pub proof fn lemma_smoke_advection_unit_range(fm: FluidModel, dt: int)
    requires
        fm.wf(),
        forall|k: int| 0 <= k < fm.m.len() ==> 0 <= #[trigger] fm.m[k] <= FP_ONE,
    ensures
        forall|k: int|
            0 <= k < advect_smoke_m(fm, dt).m.len() ==> 0 <= #[trigger] advect_smoke_m(
                fm,
                dt,
            ).m[k] <= FP_ONE,
{
    assert forall|k: int|
        0 <= k < advect_smoke_m(fm, dt).m.len() implies 0 <= #[trigger] advect_smoke_m(
        fm,
        dt,
    ).m[k] <= FP_ONE by {
        if adv_m_applies(fm.s, fm.nx, fm.ny, k) {
            let i = k / fm.ny;
            let j = k % fm.ny;
            let ua = tdiv(fm.u[k] as int + fm.u[k + fm.ny] as int, 2);
            let va = tdiv(fm.v[k] as int + fm.v[k + 1] as int, 2);
            let x = fxs_sub(i * fm.h + tdiv(fm.h, 2), fxs_mul(dt, ua));
            let y = fxs_sub(j * fm.h + tdiv(fm.h, 2), fxs_mul(dt, va));
            lemma_smoke_sample_unit_range(fm, x, y);
        }
    }
}

/// Truncating division leaves a remainder smaller than the divisor, on
/// the side of the dividend.
proof fn lemma_tdiv_rem(a: int, b: int)
    requires
        b >= 1,
    ensures
        a >= 0 ==> 0 <= a - b * tdiv(a, b) < b,
        a <= 0 ==> -b < a - b * tdiv(a, b) <= 0,
{
    if a >= 0 {
        vstd::arithmetic::div_mod::lemma_fundamental_div_mod(a, b);
        vstd::arithmetic::div_mod::lemma_mod_bound(a, b);
    } else {
        vstd::arithmetic::div_mod::lemma_fundamental_div_mod(-a, b);
        vstd::arithmetic::div_mod::lemma_mod_bound(-a, b);
        assert(b * tdiv(a, b) == -(b * ((-a) / b))) by (nonlinear_arith)
            requires
                tdiv(a, b) == -((-a) / b),
    ;
    }
}

/// The heart of the divergence-reduction law, on plain integers: one
/// relaxed correction `pc = trunc(or * trunc(-d / k) / one)` spread over
/// `k` fluid faces brings the divergence `d` strictly closer to zero,
/// for an over-relaxation factor in `[1, 2)` and a divergence of at
/// least one unit per fluid face.
proof fn lemma_relax_correction(d: int, k: int, or: int)
    requires
        1 <= k <= 4,
        FP_ONE <= or < 2 * FP_ONE,
        d >= k || d <= -k,
    ensures
        ({
            let pc = tdiv(or * tdiv(-d, k), FP_ONE as int);
            let d2 = d + pc * k;
            (if d2 < 0 {
                -d2
            } else {
                d2
            }) < (if d < 0 {
                -d
            } else {
                d
            })
        }),
{
    let f = FP_ONE as int;
    let t = tdiv(-d, k);
    let pc = tdiv(or * t, f);
    lemma_tdiv_rem(-d, k);
    lemma_tdiv_rem(or * t, f);
    assert(k * t == t * k) by (nonlinear_arith);
    if d > 0 {
        assert(t <= -1) by (nonlinear_arith)
            requires
                t * k <= -d + (k - 1),
                d >= k,
                1 <= k,
        ;
        assert(or * t <= -f) by (nonlinear_arith)
            requires
                t <= -1,
                or >= f,
                f >= 1,
        ;
        assert(pc <= -1) by (nonlinear_arith)
            requires
                f * pc < or * t + f,
                or * t <= -f,
                f >= 1,
        ;
        assert(pc * k <= -k) by (nonlinear_arith)
            requires
                pc <= -1,
                k >= 1,
        ;
        assert(f * (pc * k) >= (or * t) * k) by (nonlinear_arith)
            requires
                f * pc >= or * t,
                k >= 1,
        ;
        assert((or * t) * k >= or * (-d)) by (nonlinear_arith)
            requires
                t * k >= -d,
                or >= 1,
        ;
        assert(or * (-d) > (2 * f) * (-d)) by (nonlinear_arith)
            requires
                or < 2 * f,
                d > 0,
        ;
        assert(pc * k > -2 * d) by (nonlinear_arith)
            requires
                f * (pc * k) > (2 * f) * (-d),
                f >= 1,
        ;
    } else {
        assert(t >= 1) by (nonlinear_arith)
            requires
                t * k >= -d - (k - 1),
                d <= -k,
                1 <= k,
        ;
        assert(or * t >= f) by (nonlinear_arith)
            requires
                t >= 1,
                or >= f,
                f >= 1,
        ;
        assert(pc >= 1) by (nonlinear_arith)
            requires
                f * pc > or * t - f,
                or * t >= f,
                f >= 1,
        ;
        assert(pc * k >= k) by (nonlinear_arith)
            requires
                pc >= 1,
                k >= 1,
        ;
        assert(f * (pc * k) <= (or * t) * k) by (nonlinear_arith)
            requires
                f * pc <= or * t,
                k >= 1,
        ;
        assert((or * t) * k <= or * (-d)) by (nonlinear_arith)
            requires
                t * k <= -d,
                or >= 1,
        ;
        assert(or * (-d) < (2 * f) * (-d)) by (nonlinear_arith)
            requires
                or < 2 * f,
                d < 0,
        ;
        assert(pc * k < -2 * d) by (nonlinear_arith)
            requires
                f * (pc * k) < (2 * f) * (-d),
                f >= 1,
        ;
    }
}

/// Projection reduces divergence: one Gauss-Seidel relaxation of an
/// interior fluid cell with at least one fluid neighbour brings that
/// cell's measured divergence `u[right] - u[here] + v[up] - v[here]`
/// strictly closer to zero, for an over-relaxation factor in `[1, 2)`,
/// velocities comfortably inside the representable range, and a
/// divergence of at least one raw unit per fluid face (below that the
/// truncated correction can vanish). The guarantee is per relaxation:
/// relaxing a neighbouring cell afterwards shares faces with this one
/// and can disturb it, which is why the solver repeats a fixed budget
/// of sweeps.
#[verifier::spinoff_prover]
#[verifier::rlimit(100)]
pub proof fn lemma_projection_reduces_divergence(
    st: FlowState,
    s: Seq<i64>,
    ny: int,
    cp: int,
    or: int,
    i: int,
    j: int,
)
    requires
        3 <= ny,
        1 <= i,
        1 <= j < ny - 1,
        st.u.len() == s.len(),
        st.v.len() == s.len(),
        st.p.len() == s.len(),
        0 <= (i - 1) * ny + j,
        (i + 1) * ny + j < s.len(),
        mask_binary(s),
        s[i * ny + j] != 0,
        1 <= nbr_count(s, ny, i, j),
        FP_ONE <= or < 2 * FP_ONE,
        forall|k: int| 0 <= k < st.u.len() ==> -0x800_0000 <= #[trigger] st.u[k] <= 0x800_0000,
        forall|k: int| 0 <= k < st.v.len() ==> -0x800_0000 <= #[trigger] st.v[k] <= 0x800_0000,
        ({
            let d = div_at(st.u, st.v, ny, i, j);
            d >= nbr_count(s, ny, i, j) || d <= -nbr_count(s, ny, i, j)
        }),
    ensures
        ({
            let st2 = relax_cell(st, s, ny, cp, or, i, j);
            let d = div_at(st.u, st.v, ny, i, j);
            let d2 = div_at(st2.u, st2.v, ny, i, j);
            (if d2 < 0 {
                -d2
            } else {
                d2
            }) < (if d < 0 {
                -d
            } else {
                d
            })
        }),
{
    let f = FP_ONE as int;
    let c = i * ny + j;
    let k = nbr_count(s, ny, i, j);
    let d = div_at(st.u, st.v, ny, i, j);
    let t = tdiv(-d, k);
    let pc = tdiv(or * t, f);
    assert((i + 1) * ny == i * ny + ny && (i - 1) * ny == i * ny - ny) by (nonlinear_arith);
    assert(0x2000_0000 * k >= 0x2000_0000) by (nonlinear_arith)
        requires
            k >= 1,
    ;
    lemma_tdiv_bound(-d, k, 0x2000_0000);
    assert(-(0x4000_0000 * f) <= or * t <= 0x4000_0000 * f) by (nonlinear_arith)
        requires
            -0x2000_0000 <= t <= 0x2000_0000,
            0 <= or <= 2 * f,
            f == 0x10000,
    ;
    lemma_tdiv_bound(or * t, f, 0x4000_0000);
    lemma_relax_correction(d, k, or);
    let st2 = relax_cell(st, s, ny, cp, or, i, j);
    let b0: int = if s[c - ny] != 0 {
        1
    } else {
        0
    };
    let b1: int = if s[c + ny] != 0 {
        1
    } else {
        0
    };
    let b2: int = if s[c - 1] != 0 {
        1
    } else {
        0
    };
    let b3: int = if s[c + 1] != 0 {
        1
    } else {
        0
    };
    assert(st2.u[c] == st.u[c] - b0 * pc && st2.u[c + ny] == st.u[c + ny] + b1 * pc && st2.v[c]
        == st.v[c] - b2 * pc && st2.v[c + 1] == st.v[c + 1] + b3 * pc) by {
        assert(0 * pc == 0 && 1 * pc == pc) by (nonlinear_arith);
    }
    assert(div_at(st2.u, st2.v, ny, i, j) == d + pc * k) by (nonlinear_arith)
        requires
            div_at(st2.u, st2.v, ny, i, j) == d + b1 * pc + b0 * pc + b3 * pc + b2 * pc,
            k == b0 + b1 + b2 + b3,
    ;
}

} // verus!
