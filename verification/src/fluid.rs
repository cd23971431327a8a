//! The grid field store: per-cell arrays of the staggered grid, the
//! bilinear sampler, and the per-frame passes (integration, pressure
//! projection, boundary extrapolation, semi-Lagrangian advection).
//!
//! Cell `(i, j)` (column `i`, row `j`) lives at flat index `i * num_y + j`;
//! every neighbour formula below relies on that row-major convention.
//! `u` is stored on the left face of each cell, `v` on the bottom face,
//! pressure, the solid mask and the smoke density at the centre.

use vstd::prelude::*;
use vstd::arithmetic::div_mod::lemma_fundamental_div_mod_converse;
use crate::fixed::{
    FP_ONE, FP_SAT, fx_in_range, tdiv, fxs_add, fxs_sub, fxs_mul, fxs_div, fxc, fx_add, fx_sub,
    fx_mul, fx_div, fx_tdiv, lemma_tdiv_bound, lemma_range_product,
};

verus! {

/// Selects which staggered field `sample_field` reads.
#[derive(Clone, Copy)]
pub enum Field {
    U,
    V,
    S,
}

/// The grid field store. All arrays have length `num_cells`; `new_u`,
/// `new_v` and `new_m` are scratch buffers used only inside advection.
pub struct Fluid {
    pub density: i64,
    pub num_x: usize,
    pub num_y: usize,
    pub num_cells: usize,
    pub h: i64,
    pub u: Vec<i64>,
    pub v: Vec<i64>,
    pub new_u: Vec<i64>,
    pub new_v: Vec<i64>,
    pub p: Vec<i64>,
    pub s: Vec<i64>,
    pub m: Vec<i64>,
    pub new_m: Vec<i64>,
}

/// Mathematical view of a grid: the dimensions and the live fields.
/// The advection scratch buffers are deliberately not part of the view.
#[verifier::ext_equal]
pub struct FluidModel {
    pub nx: int,
    pub ny: int,
    pub h: int,
    pub density: int,
    pub u: Seq<i64>,
    pub v: Seq<i64>,
    pub p: Seq<i64>,
    pub s: Seq<i64>,
    pub m: Seq<i64>,
}

/// Every element of `q` lies in the representable fixed-point range.
pub open spec fn all_in_range(q: Seq<i64>) -> bool {
    forall|k: int| 0 <= k < q.len() ==> fx_in_range(#[trigger] q[k] as int)
}

/// Every element of `q` is exactly zero (solid) or one (fluid).
pub open spec fn mask_binary(q: Seq<i64>) -> bool {
    forall|k: int| 0 <= k < q.len() ==> (#[trigger] q[k]) == 0 || q[k] == FP_ONE
}

impl FluidModel {
    /// Well-formed grid: sane dimensions, all arrays of length `nx * ny`,
    /// every value in range, and the solid mask binary.
    pub open spec fn wf(self) -> bool {
        &&& 3 <= self.nx <= 30000
        &&& 3 <= self.ny <= 30000
        &&& 2 <= self.h <= FP_SAT
        &&& self.nx * self.h <= FP_SAT
        &&& self.ny * self.h <= FP_SAT
        &&& 0 <= self.density <= FP_SAT
        &&& self.u.len() == self.nx * self.ny
        &&& self.v.len() == self.nx * self.ny
        &&& self.p.len() == self.nx * self.ny
        &&& self.s.len() == self.nx * self.ny
        &&& self.m.len() == self.nx * self.ny
        &&& all_in_range(self.u)
        &&& all_in_range(self.v)
        &&& all_in_range(self.p)
        &&& all_in_range(self.m)
        &&& mask_binary(self.s)
    }
}

/// Row-major index arithmetic: `i * ny + j` stays inside the grid and
/// decomposes back into `i` and `j` by division and remainder.
pub proof fn lemma_cell_index(i: int, j: int, nx: int, ny: int)
    requires
        0 <= i < nx,
        0 <= j < ny,
    ensures
        0 <= i * ny + j < nx * ny,
        (i * ny + j) / ny == i,
        (i * ny + j) % ny == j,
{
    assert(0 <= i * ny + j < nx * ny) by (nonlinear_arith)
        requires
            0 <= i < nx,
            0 <= j < ny,
    ;
    lemma_fundamental_div_mod_converse(i * ny + j, ny, i, j);
}

impl Fluid {
    /// The mathematical view of this grid.
    pub open spec fn model(self) -> FluidModel {
        FluidModel {
            nx: self.num_x as int,
            ny: self.num_y as int,
            h: self.h as int,
            density: self.density as int,
            u: self.u@,
            v: self.v@,
            p: self.p@,
            s: self.s@,
            m: self.m@,
        }
    }

    /// Well-formedness of the store itself: the view is well formed, the
    /// cached cell count is consistent and small enough for safe index
    /// arithmetic, and the scratch buffers mirror the live arrays.
    pub open spec fn wf(self) -> bool {
        &&& self.model().wf()
        &&& self.num_cells == self.num_x * self.num_y
        &&& self.num_cells <= 0x4000_0000
        &&& self.new_u@.len() == self.num_cells
        &&& self.new_v@.len() == self.num_cells
        &&& self.new_m@.len() == self.num_cells
        &&& all_in_range(self.new_u@)
        &&& all_in_range(self.new_v@)
        &&& all_in_range(self.new_m@)
    }
}

/// A vector of `len` copies of `val`.
fn make_vec(len: usize, val: i64) -> (r: Vec<i64>)
    ensures
        r@.len() == len,
        forall|k: int| 0 <= k < len ==> r@[k] == val,
{
    let mut r: Vec<i64> = Vec::new();
    let mut n: usize = 0;
    while n < len
        invariant
            n <= len,
            r@.len() == n,
            forall|k: int| 0 <= k < n ==> r@[k] == val,
        decreases len - n,
    {
        r.push(val);
        n = n + 1;
    }
    r
}

/// Overwrite `dst` with the contents of `src`, element by element.
fn copy_into(dst: &mut Vec<i64>, src: &Vec<i64>)
    requires
        old(dst)@.len() == src@.len(),
    ensures
        final(dst)@ == src@,
{
    let len = src.len();
    let mut n: usize = 0;
    while n < len
        invariant
            n <= len,
            dst@.len() == len,
            src@.len() == len,
            forall|k: int| 0 <= k < n ==> dst@[k] == src@[k],
        decreases len - n,
    {
        dst[n] = src[n];
        n = n + 1;
    }
    assert(dst@ =~= src@);
}

/// Set every element of `dst` to zero.
pub(crate) fn fill_zero_vec(dst: &mut Vec<i64>)
    ensures
        final(dst)@.len() == old(dst)@.len(),
        forall|k: int| 0 <= k < final(dst)@.len() ==> final(dst)@[k] == 0i64,
{
    let len = dst.len();
    let mut n: usize = 0;
    while n < len
        invariant
            n <= len,
            dst@.len() == len,
            forall|k: int| 0 <= k < n ==> dst@[k] == 0i64,
        decreases len - n,
    {
        dst[n] = 0;
        n = n + 1;
    }
}

/// True when gravity is applied to the `v` face of flat cell `k`: the cell
/// is interior in `j`, not in the first column, and both the cell and its
/// lower neighbour are fluid.
pub open spec fn grav_applies(s: Seq<i64>, ny: int, k: int) -> bool {
    let i = k / ny;
    let j = k % ny;
    &&& 1 <= i
    &&& 1 <= j < ny - 1
    &&& s[k] != 0
    &&& s[k - 1] != 0
}

/// Body-force integration: add `gravity * dt` to every eligible `v` face.
pub open spec fn integrate_m(fm: FluidModel, dt: int, gravity: int) -> FluidModel {
    let g = fxs_mul(gravity, dt);
    FluidModel {
        v: Seq::new(
            fm.v.len(),
            |k: int|
                if grav_applies(fm.s, fm.ny, k) {
                    fxc(fm.v[k] as int + g)
                } else {
                    fm.v[k]
                },
        ),
        ..fm
    }
}

/// The view of a freshly allocated grid: all fields zero except the
/// smoke density, which is one everywhere.
pub open spec fn fresh_m(density: int, nx: int, ny: int, h: int) -> FluidModel {
    FluidModel {
        nx,
        ny,
        h,
        density,
        u: Seq::new((nx * ny) as nat, |k: int| 0i64),
        v: Seq::new((nx * ny) as nat, |k: int| 0i64),
        p: Seq::new((nx * ny) as nat, |k: int| 0i64),
        s: Seq::new((nx * ny) as nat, |k: int| 0i64),
        m: Seq::new((nx * ny) as nat, |k: int| FP_ONE),
    }
}

/// The smaller of two integers.
pub open spec fn min_spec(a: int, b: int) -> int {
    if a < b {
        a
    } else {
        b
    }
}

/// Clamp `x` into `[lo, hi]`.
pub open spec fn clamp_spec(x: int, lo: int, hi: int) -> int {
    if x < lo {
        lo
    } else if x > hi {
        hi
    } else {
        x
    }
}

/// One axis of the bilinear sampler: for a clamped, offset coordinate
/// `xd` in `[0, n * h]`, the chosen base index is valid and the residual
/// against it lies in `[0, h]`.
pub proof fn lemma_axis(xd: int, h: int, n: int)
    requires
        2 <= h,
        1 <= n,
        0 <= xd <= n * h,
    ensures
        0 <= min_spec(tdiv(xd, h), n - 1) <= n - 1,
        0 <= xd - min_spec(tdiv(xd, h), n - 1) * h <= h,
{
    let q = xd / h;
    vstd::arithmetic::div_mod::lemma_fundamental_div_mod(xd, h);
    vstd::arithmetic::div_mod::lemma_mod_bound(xd, h);
    vstd::arithmetic::div_mod::lemma_div_pos_is_pos(xd, h);
    assert(h * q == q * h) by (nonlinear_arith);
    if q >= n {
        assert(q * h >= n * h) by (nonlinear_arith)
            requires
                q >= n,
                h >= 1,
        ;
        assert(xd - (n - 1) * h == xd - n * h + h) by (nonlinear_arith);
    }
}

/// The values, x-offset and y-offset of the staggered field that a
/// selector picks: `u` sits on the left face (offset half a cell in y),
/// `v` on the bottom face (offset half a cell in x), and the smoke
/// density at the cell centre (offset in both).
pub open spec fn field_values(fm: FluidModel, field: Field) -> Seq<i64> {
    match field {
        Field::U => fm.u,
        Field::V => fm.v,
        Field::S => fm.m,
    }
}

/// The x stagger offset of a field.
pub open spec fn field_dx(h: int, field: Field) -> int {
    match field {
        Field::U => 0,
        Field::V => tdiv(h, 2),
        Field::S => tdiv(h, 2),
    }
}

/// The y stagger offset of a field.
pub open spec fn field_dy(h: int, field: Field) -> int {
    match field {
        Field::U => tdiv(h, 2),
        Field::V => 0,
        Field::S => tdiv(h, 2),
    }
}

/// Bilinear interpolation of the per-cell values `f` at world point
/// `(x, y)`, for a field staggered by `(dx, dy)`. Coordinates are clamped
/// into `[h, n * h]` per axis and the four contributing cell indices are
/// clamped to the last valid row and column, so the sample never reads
/// outside the grid.
pub open spec fn sample_at(
    f: Seq<i64>,
    nx: int,
    ny: int,
    h: int,
    dx: int,
    dy: int,
    x: int,
    y: int,
) -> int {
    let xd = clamp_spec(x, h, nx * h) - dx;
    let yd = clamp_spec(y, h, ny * h) - dy;
    let x0 = min_spec(tdiv(xd, h), nx - 1);
    let tx = tdiv((xd - x0 * h) * FP_ONE, h);
    let x1 = min_spec(x0 + 1, nx - 1);
    let y0 = min_spec(tdiv(yd, h), ny - 1);
    let ty = tdiv((yd - y0 * h) * FP_ONE, h);
    let y1 = min_spec(y0 + 1, ny - 1);
    let sx = FP_ONE - tx;
    let sy = FP_ONE - ty;
    fxs_add(
        fxs_add(
            fxs_add(
                fxs_mul(fxs_mul(sx, sy), f[x0 * ny + y0] as int),
                fxs_mul(fxs_mul(tx, sy), f[x1 * ny + y0] as int),
            ),
            fxs_mul(fxs_mul(tx, ty), f[x1 * ny + y1] as int),
        ),
        fxs_mul(fxs_mul(sx, ty), f[x0 * ny + y1] as int),
    )
}

/// `sample_field` on a grid view: dispatch on the field selector.
pub open spec fn sample_field_at(fm: FluidModel, x: int, y: int, field: Field) -> int {
    sample_at(
        field_values(fm, field),
        fm.nx,
        fm.ny,
        fm.h,
        field_dx(fm.h, field),
        field_dy(fm.h, field),
        x,
        y,
    )
}

/// The average of the four `u` samples around the staggered location of
/// `v[i, j]`, truncated toward zero.
pub open spec fn avg_u_at(u: Seq<i64>, ny: int, i: int, j: int) -> int {
    tdiv(
        u[i * ny + j - 1] as int + u[i * ny + j] as int + u[(i + 1) * ny + j - 1] as int + u[(i + 1)
            * ny + j] as int,
        4,
    )
}

/// The average of the four `v` samples around the staggered location of
/// `u[i, j]`, truncated toward zero.
pub open spec fn avg_v_at(v: Seq<i64>, ny: int, i: int, j: int) -> int {
    tdiv(
        v[(i - 1) * ny + j] as int + v[i * ny + j] as int + v[(i - 1) * ny + j + 1] as int + v[i
            * ny + j + 1] as int,
        4,
    )
}

/// The velocity components and the pressure as they evolve during a
/// projection sweep; the solid mask stays fixed throughout.
#[verifier::ext_equal]
pub struct FlowState {
    pub u: Seq<i64>,
    pub v: Seq<i64>,
    pub p: Seq<i64>,
}

/// How many of the four axis neighbours of interior cell `(i, j)` are
/// fluid.
pub open spec fn nbr_count(s: Seq<i64>, ny: int, i: int, j: int) -> int {
    let c = i * ny + j;
    (if s[c - ny] != 0 {
        1int
    } else {
        0int
    }) + (if s[c + ny] != 0 {
        1int
    } else {
        0int
    }) + (if s[c - 1] != 0 {
        1int
    } else {
        0int
    }) + (if s[c + 1] != 0 {
        1int
    } else {
        0int
    })
}

/// The discrete velocity divergence of interior cell `(i, j)`: net
/// outflow through its four faces.
pub open spec fn div_at(u: Seq<i64>, v: Seq<i64>, ny: int, i: int, j: int) -> int {
    let c = i * ny + j;
    u[c + ny] as int - u[c] as int + v[c + 1] as int - v[c] as int
}

/// One Gauss-Seidel relaxation of interior cell `(i, j)`: skip solid
/// cells and cells fully enclosed by solids; otherwise spread the relaxed
/// divergence correction over the fluid-adjacent faces and accumulate the
/// matching pressure change, `cp` being the pressure scale
/// `density * h / dt` and `or` the over-relaxation factor.
pub open spec fn relax_cell(
    st: FlowState,
    s: Seq<i64>,
    ny: int,
    cp: int,
    or: int,
    i: int,
    j: int,
) -> FlowState {
    let c = i * ny + j;
    if s[c] == 0 {
        st
    } else {
        let k = nbr_count(s, ny, i, j);
        if k == 0 {
            st
        } else {
            let d = div_at(st.u, st.v, ny, i, j);
            let pc = fxs_mul(or, tdiv(-d, k));
            let dp = fxs_mul(cp, pc);
            let u1 = if s[c - ny] != 0 {
                st.u.update(c, fxc(st.u[c] as int - pc))
            } else {
                st.u
            };
            let u2 = if s[c + ny] != 0 {
                u1.update(c + ny, fxc(u1[c + ny] as int + pc))
            } else {
                u1
            };
            let v1 = if s[c - 1] != 0 {
                st.v.update(c, fxc(st.v[c] as int - pc))
            } else {
                st.v
            };
            let v2 = if s[c + 1] != 0 {
                v1.update(c + 1, fxc(v1[c + 1] as int + pc))
            } else {
                v1
            };
            FlowState { u: u2, v: v2, p: st.p.update(c, fxc(st.p[c] as int + dp)) }
        }
    }
}

/// Relax every interior cell from `(i, j)` to the end of the grid in
/// row-major order.
pub open spec fn relax_from(
    st: FlowState,
    s: Seq<i64>,
    nx: int,
    ny: int,
    cp: int,
    or: int,
    i: int,
    j: int,
) -> FlowState
    decreases nx - i, ny - j,
{
    if i < 1 || j < 1 {
        st
    } else if i >= nx - 1 {
        st
    } else if j >= ny - 1 {
        relax_from(st, s, nx, ny, cp, or, i + 1, 1)
    } else {
        relax_from(relax_cell(st, s, ny, cp, or, i, j), s, nx, ny, cp, or, i, j + 1)
    }
}

/// One full Gauss-Seidel sweep over all interior cells.
pub open spec fn sweep(st: FlowState, s: Seq<i64>, nx: int, ny: int, cp: int, or: int) -> FlowState {
    relax_from(st, s, nx, ny, cp, or, 1, 1)
}

/// `iters` full sweeps, the fixed compute budget of the projection.
pub open spec fn sweeps(
    st: FlowState,
    s: Seq<i64>,
    nx: int,
    ny: int,
    cp: int,
    or: int,
    iters: int,
) -> FlowState
    decreases iters,
{
    if iters <= 0 {
        st
    } else {
        sweep(sweeps(st, s, nx, ny, cp, or, iters - 1), s, nx, ny, cp, or)
    }
}

/// Pressure projection on a grid view: `iters` Gauss-Seidel sweeps over
/// velocity and pressure, with the solid mask and smoke untouched.
pub open spec fn project_m(fm: FluidModel, dt: int, iters: int, or: int) -> FluidModel {
    let cp = fxs_div(fxs_mul(fm.density, fm.h), dt);
    let st = sweeps(
        FlowState { u: fm.u, v: fm.v, p: fm.p },
        fm.s,
        fm.nx,
        fm.ny,
        cp,
        or,
        iters,
    );
    FluidModel { u: st.u, v: st.v, p: st.p, ..fm }
}

/// Whether the `u` face of flat cell `k` is advected: the cell and its
/// left neighbour are fluid and the face is not in the top row.
pub open spec fn adv_u_applies(s: Seq<i64>, nx: int, ny: int, k: int) -> bool {
    let i = k / ny;
    let j = k % ny;
    &&& 1 <= i
    &&& j < ny - 1
    &&& s[k] != 0
    &&& s[k - ny] != 0
}

/// Whether the `v` face of flat cell `k` is advected: the cell and its
/// lower neighbour are fluid and the face is not in the last column.
pub open spec fn adv_v_applies(s: Seq<i64>, nx: int, ny: int, k: int) -> bool {
    let i = k / ny;
    let j = k % ny;
    &&& 1 <= j
    &&& i < nx - 1
    &&& s[k] != 0
    &&& s[k - 1] != 0
}

/// Whether the smoke in flat cell `k` is advected: an interior fluid cell.
pub open spec fn adv_m_applies(s: Seq<i64>, nx: int, ny: int, k: int) -> bool {
    let i = k / ny;
    let j = k % ny;
    &&& 1 <= i < nx - 1
    &&& 1 <= j < ny - 1
    &&& s[k] != 0
}

/// Semi-Lagrangian update of one `u` face: trace the staggered sample
/// point backward along the velocity for one timestep and resample the
/// old `u` field there; an ineligible face keeps its value.
pub open spec fn advect_u_cell(fm: FluidModel, dt: int, k: int) -> i64 {
    if adv_u_applies(fm.s, fm.nx, fm.ny, k) {
        let i = k / fm.ny;
        let j = k % fm.ny;
        let x = fxs_sub(i * fm.h, fxs_mul(dt, fm.u[k] as int));
        let y = fxs_sub(j * fm.h + tdiv(fm.h, 2), fxs_mul(dt, avg_v_at(fm.v, fm.ny, i, j)));
        fxc(sample_field_at(fm, x, y, Field::U))
    } else {
        fm.u[k]
    }
}

/// Semi-Lagrangian update of one `v` face.
pub open spec fn advect_v_cell(fm: FluidModel, dt: int, k: int) -> i64 {
    if adv_v_applies(fm.s, fm.nx, fm.ny, k) {
        let i = k / fm.ny;
        let j = k % fm.ny;
        let x = fxs_sub(i * fm.h + tdiv(fm.h, 2), fxs_mul(dt, avg_u_at(fm.u, fm.ny, i, j)));
        let y = fxs_sub(j * fm.h, fxs_mul(dt, fm.v[k] as int));
        fxc(sample_field_at(fm, x, y, Field::V))
    } else {
        fm.v[k]
    }
}

/// Semi-Lagrangian update of the smoke density of one cell, backtraced
/// from the cell centre with the average of the bounding face velocities.
pub open spec fn advect_m_cell(fm: FluidModel, dt: int, k: int) -> i64 {
    if adv_m_applies(fm.s, fm.nx, fm.ny, k) {
        let i = k / fm.ny;
        let j = k % fm.ny;
        let ua = tdiv(fm.u[k] as int + fm.u[k + fm.ny] as int, 2);
        let va = tdiv(fm.v[k] as int + fm.v[k + 1] as int, 2);
        let x = fxs_sub(i * fm.h + tdiv(fm.h, 2), fxs_mul(dt, ua));
        let y = fxs_sub(j * fm.h + tdiv(fm.h, 2), fxs_mul(dt, va));
        fxc(sample_field_at(fm, x, y, Field::S))
    } else {
        fm.m[k]
    }
}

/// Velocity advection on a grid view: both components are rebuilt from
/// the same old state, as the double-buffered pass does.
pub open spec fn advect_vel_m(fm: FluidModel, dt: int) -> FluidModel {
    FluidModel {
        u: Seq::new(fm.u.len(), |k: int| advect_u_cell(fm, dt, k)),
        v: Seq::new(fm.v.len(), |k: int| advect_v_cell(fm, dt, k)),
        ..fm
    }
}

/// Smoke advection on a grid view.
pub open spec fn advect_smoke_m(fm: FluidModel, dt: int) -> FluidModel {
    FluidModel { m: Seq::new(fm.m.len(), |k: int| advect_m_cell(fm, dt, k)), ..fm }
}

/// Boundary extrapolation of `u`: the bottom and top rows of each column
/// copy their nearest interior neighbour (zero-gradient condition).
pub open spec fn extrap_u(u: Seq<i64>, ny: int) -> Seq<i64> {
    Seq::new(
        u.len(),
        |k: int|
            if k % ny == 0 {
                u[k + 1]
            } else if k % ny == ny - 1 {
                u[k - 1]
            } else {
                u[k]
            },
    )
}

/// Boundary extrapolation of `v`: the leftmost and rightmost columns copy
/// their nearest interior neighbour (zero-gradient condition).
pub open spec fn extrap_v(v: Seq<i64>, nx: int, ny: int) -> Seq<i64> {
    Seq::new(
        v.len(),
        |k: int|
            if k / ny == 0 {
                v[k + ny]
            } else if k / ny == nx - 1 {
                v[k - ny]
            } else {
                v[k]
            },
    )
}

/// Boundary extrapolation of both velocity components.
pub open spec fn extrapolate_m(fm: FluidModel) -> FluidModel {
    FluidModel { u: extrap_u(fm.u, fm.ny), v: extrap_v(fm.v, fm.nx, fm.ny), ..fm }
}

impl Fluid {
    /// Allocate a grid of `num_x * num_y` cells of size `h`. All fields
    /// start at zero except the smoke density, which starts at one.
    pub fn new(density: i64, num_x: usize, num_y: usize, h: i64) -> (r: Fluid)
        requires
            3 <= num_x <= 30000,
            3 <= num_y <= 30000,
            2 <= h,
            num_x * h <= FP_SAT,
            num_y * h <= FP_SAT,
            0 <= density <= FP_SAT,
        ensures
            r.wf(),
            r.density == density,
            r.num_x == num_x,
            r.num_y == num_y,
            r.num_cells == num_x * num_y,
            r.h == h,
            forall|k: int| 0 <= k < r.num_cells ==> r.u@[k] == 0i64,
            forall|k: int| 0 <= k < r.num_cells ==> r.v@[k] == 0i64,
            forall|k: int| 0 <= k < r.num_cells ==> r.p@[k] == 0i64,
            forall|k: int| 0 <= k < r.num_cells ==> r.s@[k] == 0i64,
            forall|k: int| 0 <= k < r.num_cells ==> r.m@[k] == FP_ONE,
            r.model() == fresh_m(density as int, num_x as int, num_y as int, h as int),
    {
        assert(num_x * num_y <= 0x4000_0000) by (nonlinear_arith)
            requires
                num_x <= 30000,
                num_y <= 30000,
        ;
        assert(h <= FP_SAT) by (nonlinear_arith)
            requires
                3 <= num_x,
                2 <= h,
                num_x * h <= FP_SAT,
        ;
        let num_cells = num_x * num_y;
        let r = Fluid {
            density,
            num_x,
            num_y,
            num_cells,
            h,
            u: make_vec(num_cells, 0),
            v: make_vec(num_cells, 0),
            new_u: make_vec(num_cells, 0),
            new_v: make_vec(num_cells, 0),
            p: make_vec(num_cells, 0),
            s: make_vec(num_cells, 0),
            m: make_vec(num_cells, FP_ONE),
            new_m: make_vec(num_cells, 0),
        };
        proof {
            assert(r.model() =~= fresh_m(density as int, num_x as int, num_y as int, h as int));
        }
        r
    }

    /// Apply gravity for one timestep to every `v` face whose cell and
    /// lower neighbour are both fluid.
    #[verifier::loop_isolation(false)]
    #[verifier::rlimit(50)]
    pub fn integrate(&mut self, dt: i64, gravity: i64)
        requires
            old(self).wf(),
            fx_in_range(dt as int),
            fx_in_range(gravity as int),
        ensures
            final(self).wf(),
            final(self).model() == integrate_m(old(self).model(), dt as int, gravity as int),
            final(self).num_cells == old(self).num_cells,
            final(self).new_u@ == old(self).new_u@,
            final(self).new_v@ == old(self).new_v@,
            final(self).new_m@ == old(self).new_m@,
    {
        let ghost m0 = old(self).model();
        proof {
            crate::fixed::lemma_range_product(gravity as int, dt as int);
        }
        let g = fx_mul(gravity, dt);
        let n = self.num_y;
        let nx = self.num_x;
        proof {
            assert forall|k: int| 0 <= k < n implies !grav_applies(m0.s, n as int, k) by {
                lemma_cell_index(0, k, nx as int, n as int);
            }
        }
        let mut i: usize = 1;
        while i < nx
            invariant
                1 <= i <= nx,
                self.wf(),
                self.num_x == old(self).num_x,
                self.num_y == old(self).num_y,
                self.num_cells == old(self).num_cells,
                self.h == old(self).h,
                self.density == old(self).density,
                self.u@ == m0.u,
                self.p@ == m0.p,
                self.s@ == m0.s,
                self.m@ == m0.m,
                self.new_u@ == old(self).new_u@,
                self.new_v@ == old(self).new_v@,
                self.new_m@ == old(self).new_m@,
                self.v@.len() == m0.v.len(),
                forall|k: int|
                    0 <= k < m0.v.len() ==> #[trigger] self.v@[k] == (if k < i * (n as int)
                        && grav_applies(m0.s, n as int, k) {
                        fxc(m0.v[k] as int + g)
                    } else {
                        m0.v[k]
                    }),
            decreases nx - i,
        {
            proof {
                lemma_cell_index(i as int, 0, nx as int, n as int);
                assert(!grav_applies(m0.s, n as int, i * (n as int)));
            }
            let mut j: usize = 1;
            while j < n - 1
                invariant
                    1 <= i < nx,
                    1 <= j <= n - 1,
                    self.wf(),
                    self.num_x == old(self).num_x,
                    self.num_y == old(self).num_y,
                    self.num_cells == old(self).num_cells,
                    self.h == old(self).h,
                    self.density == old(self).density,
                    self.u@ == m0.u,
                    self.p@ == m0.p,
                    self.s@ == m0.s,
                    self.m@ == m0.m,
                    self.new_u@ == old(self).new_u@,
                    self.new_v@ == old(self).new_v@,
                    self.new_m@ == old(self).new_m@,
                    self.v@.len() == m0.v.len(),
                    forall|k: int|
                        0 <= k < m0.v.len() ==> #[trigger] self.v@[k] == (if k < i * (n as int) + j
                            && grav_applies(m0.s, n as int, k) {
                            fxc(m0.v[k] as int + g)
                        } else {
                            m0.v[k]
                        }),
                decreases n - 1 - j,
            {
                proof {
                    lemma_cell_index(i as int, j as int, nx as int, n as int);
                }
                let c = i * n + j;
                if self.s[c] != 0 && self.s[c - 1] != 0 {
                    let nv = fx_add(self.v[c], g);
                    self.v[c] = nv;
                }
                j = j + 1;
            }
            proof {
                lemma_cell_index(i as int, n as int - 1, nx as int, n as int);
                assert(!grav_applies(m0.s, n as int, i * (n as int) + (n - 1)));
                assert((i + 1) * (n as int) == i * (n as int) + n) by (nonlinear_arith);
            }
            i = i + 1;
        }
        proof {
            assert(self.v@ =~= integrate_m(m0, dt as int, gravity as int).v);
            assert(self.model() =~= integrate_m(m0, dt as int, gravity as int));
        }
    }

    /// Bilinearly interpolate a staggered field at world point `(x, y)`.
    /// Coordinates are clamped into the valid domain before sampling, so
    /// the call is safe for every input.
    #[verifier::rlimit(100)]
    pub fn sample_field(&self, x: i64, y: i64, field: Field) -> (r: i64)
        requires
            self.wf(),
            fx_in_range(x as int),
            fx_in_range(y as int),
        ensures
            r as int == sample_field_at(self.model(), x as int, y as int, field),
            fx_in_range(r as int),
    {
        let n = self.num_y;
        let nx = self.num_x;
        let h = self.h;
        let h2 = h / 2;
        let nxh = (nx as i64) * h;
        let nyh = (n as i64) * h;
        let xc = if x < h {
            h
        } else if x > nxh {
            nxh
        } else {
            x
        };
        let yc = if y < h {
            h
        } else if y > nyh {
            nyh
        } else {
            y
        };
        proof {
            vstd::arithmetic::div_mod::lemma_fundamental_div_mod(h as int, 2);
            vstd::arithmetic::div_mod::lemma_mod_bound(h as int, 2);
            vstd::arithmetic::div_mod::lemma_div_pos_is_pos(h as int, 2);
        }
        let (dx, dy) = match field {
            Field::U => (0i64, h2),
            Field::V => (h2, 0i64),
            Field::S => (h2, h2),
        };
        proof {
            assert(dx as int == field_dx(h as int, field));
            assert(dy as int == field_dy(h as int, field));
            assert(0 <= dx < h && 0 <= dy < h);
        }
        let xd = xc - dx;
        let yd = yc - dy;
        proof {
            assert(h as int <= nx as int * h as int && h as int <= n as int * h as int)
                by (nonlinear_arith)
                requires
                    1 <= nx,
                    1 <= n,
                    0 <= h,
            ;
            assert(h <= xc <= (nx as i64) * h);
            assert(h <= yc <= (n as i64) * h);
            assert(0 <= xd as int);
            assert(xd as int <= nx as int * h as int);
            assert(0 <= yd as int);
            assert(yd as int <= n as int * h as int);
            lemma_axis(xd as int, h as int, nx as int);
            lemma_axis(yd as int, h as int, n as int);
        }
        let qx = xd / h;
        let x0: usize = if qx >= (nx - 1) as i64 {
            nx - 1
        } else {
            qx as usize
        };
        proof {
            assert(x0 as int == min_spec(tdiv(xd as int, h as int), nx as int - 1));
        }
        let rx = xd - (x0 as i64) * h;
        proof {
            lemma_range_product(rx as int, FP_ONE as int);
        }
        let tx = (rx * FP_ONE) / h;
        let x1: usize = if x0 + 1 < nx - 1 {
            x0 + 1
        } else {
            nx - 1
        };
        let qy = yd / h;
        let y0: usize = if qy >= (n - 1) as i64 {
            n - 1
        } else {
            qy as usize
        };
        proof {
            assert(y0 as int == min_spec(tdiv(yd as int, h as int), n as int - 1));
        }
        let ry = yd - (y0 as i64) * h;
        proof {
            lemma_range_product(ry as int, FP_ONE as int);
        }
        let ty = (ry * FP_ONE) / h;
        let y1: usize = if y0 + 1 < n - 1 {
            y0 + 1
        } else {
            n - 1
        };
        proof {
            lemma_tdiv_bound(rx as int * FP_ONE, h as int, FP_ONE as int);
            lemma_tdiv_bound(ry as int * FP_ONE, h as int, FP_ONE as int);
            assert(rx as int * FP_ONE <= h as int * FP_ONE) by (nonlinear_arith)
                requires
                    0 <= rx <= h,
            ;
            assert(ry as int * FP_ONE <= h as int * FP_ONE) by (nonlinear_arith)
                requires
                    0 <= ry <= h,
            ;
            lemma_cell_index(x0 as int, y0 as int, nx as int, n as int);
            lemma_cell_index(x1 as int, y0 as int, nx as int, n as int);
            lemma_cell_index(x1 as int, y1 as int, nx as int, n as int);
            lemma_cell_index(x0 as int, y1 as int, nx as int, n as int);
        }
        let sx = FP_ONE - tx;
        let sy = FP_ONE - ty;
        let f: &Vec<i64> = match field {
            Field::U => &self.u,
            Field::V => &self.v,
            Field::S => &self.m,
        };
        proof {
            lemma_range_product(sx as int, sy as int);
            lemma_range_product(tx as int, sy as int);
            lemma_range_product(tx as int, ty as int);
            lemma_range_product(sx as int, ty as int);
        }
        let w00 = fx_mul(sx, sy);
        let w10 = fx_mul(tx, sy);
        let w11 = fx_mul(tx, ty);
        let w01 = fx_mul(sx, ty);
        let f00 = f[x0 * n + y0];
        let f10 = f[x1 * n + y0];
        let f11 = f[x1 * n + y1];
        let f01 = f[x0 * n + y1];
        proof {
            lemma_range_product(w00 as int, f00 as int);
            lemma_range_product(w10 as int, f10 as int);
            lemma_range_product(w11 as int, f11 as int);
            lemma_range_product(w01 as int, f01 as int);
        }
        let t00 = fx_mul(w00, f00);
        let t10 = fx_mul(w10, f10);
        let t11 = fx_mul(w11, f11);
        let t01 = fx_mul(w01, f01);
        fx_add(fx_add(fx_add(t00, t10), t11), t01)
    }

    /// The x-velocity averaged to the staggered location of `v[i, j]`.
    pub fn avg_u(&self, i: usize, j: usize) -> (r: i64)
        requires
            self.wf(),
            1 <= j < self.num_y,
            i + 1 < self.num_x,
        ensures
            r as int == avg_u_at(self.model().u, self.num_y as int, i as int, j as int),
            fx_in_range(r as int),
    {
        let n = self.num_y;
        proof {
            lemma_cell_index(i as int, j as int - 1, self.num_x as int, n as int);
            lemma_cell_index(i as int, j as int, self.num_x as int, n as int);
            lemma_cell_index(i as int + 1, j as int - 1, self.num_x as int, n as int);
            lemma_cell_index(i as int + 1, j as int, self.num_x as int, n as int);
            lemma_tdiv_bound(
                self.u@[i as int * n + j - 1] as int + self.u@[i as int * n + j] as int + self.u@[(
                i + 1) as int * n + j - 1] as int + self.u@[(i + 1) as int * n + j] as int,
                4,
                FP_SAT as int,
            );
        }
        let sum = self.u[i * n + j - 1] + self.u[i * n + j] + self.u[(i + 1) * n + j - 1]
            + self.u[(i + 1) * n + j];
        fx_tdiv(sum, 4)
    }

    /// The y-velocity averaged to the staggered location of `u[i, j]`.
    pub fn avg_v(&self, i: usize, j: usize) -> (r: i64)
        requires
            self.wf(),
            1 <= i < self.num_x,
            j + 1 < self.num_y,
        ensures
            r as int == avg_v_at(self.model().v, self.num_y as int, i as int, j as int),
            fx_in_range(r as int),
    {
        let n = self.num_y;
        proof {
            lemma_cell_index(i as int - 1, j as int, self.num_x as int, n as int);
            lemma_cell_index(i as int, j as int, self.num_x as int, n as int);
            lemma_cell_index(i as int - 1, j as int + 1, self.num_x as int, n as int);
            lemma_cell_index(i as int, j as int + 1, self.num_x as int, n as int);
            lemma_tdiv_bound(
                self.v@[(i - 1) as int * n + j] as int + self.v@[i as int * n + j] as int
                    + self.v@[(i - 1) as int * n + j + 1] as int + self.v@[i as int * n + j
                    + 1] as int,
                4,
                FP_SAT as int,
            );
        }
        let sum = self.v[(i - 1) * n + j] + self.v[i * n + j] + self.v[(i - 1) * n + j + 1]
            + self.v[i * n + j + 1];
        fx_tdiv(sum, 4)
    }

    /// Copy the outermost velocity rows and columns from their nearest
    /// interior neighbours, so that boundary velocities stay consistent
    /// with the interior flow.
    #[verifier::loop_isolation(false)]
    pub fn extrapolate(&mut self)
        requires
            old(self).wf(),
        ensures
            final(self).wf(),
            final(self).model() == extrapolate_m(old(self).model()),
            final(self).num_cells == old(self).num_cells,
            final(self).new_u@ == old(self).new_u@,
            final(self).new_v@ == old(self).new_v@,
            final(self).new_m@ == old(self).new_m@,
    {
        let ghost m0 = old(self).model();
        let n = self.num_y;
        let nx = self.num_x;
        let mut i: usize = 0;
        while i < nx
            invariant
                i <= nx,
                self.num_x == old(self).num_x,
                self.num_y == old(self).num_y,
                self.num_cells == old(self).num_cells,
                self.h == old(self).h,
                self.density == old(self).density,
                self.v@ == m0.v,
                self.p@ == m0.p,
                self.s@ == m0.s,
                self.m@ == m0.m,
                self.new_u@ == old(self).new_u@,
                self.new_v@ == old(self).new_v@,
                self.new_m@ == old(self).new_m@,
                self.u@.len() == m0.u.len(),
                all_in_range(self.u@),
                forall|k: int|
                    0 <= k < m0.u.len() ==> #[trigger] self.u@[k] == (if k < i * (n as int) && k % (
                    n as int) == 0 {
                        m0.u[k + 1]
                    } else if k < i * (n as int) && k % (n as int) == n - 1 {
                        m0.u[k - 1]
                    } else {
                        m0.u[k]
                    }),
            decreases nx - i,
        {
            proof {
                lemma_cell_index(i as int, 0, nx as int, n as int);
                lemma_cell_index(i as int, 1, nx as int, n as int);
                lemma_cell_index(i as int, n as int - 2, nx as int, n as int);
                lemma_cell_index(i as int, n as int - 1, nx as int, n as int);
                assert((i + 1) * (n as int) == i * (n as int) + n) by (nonlinear_arith);
            }
            let base = i * n;
            self.u[base] = self.u[base + 1];
            self.u[base + n - 1] = self.u[base + n - 2];
            proof {
                assert forall|k: int|
                    i * (n as int) <= k < i * (n as int) + (n as int) implies (#[trigger] (k % (
                n as int)) == k - i * (n as int)) && (k / (n as int) == i) by {
                    lemma_cell_index(i as int, k - i * (n as int), nx as int, n as int);
                }
            }
            i = i + 1;
        }
        proof {
            assert(self.u@ =~= extrap_u(m0.u, n as int));
        }
        let mut j: usize = 0;
        while j < n
            invariant
                j <= n,
                self.num_x == old(self).num_x,
                self.num_y == old(self).num_y,
                self.num_cells == old(self).num_cells,
                self.h == old(self).h,
                self.density == old(self).density,
                self.u@ == extrap_u(m0.u, n as int),
                self.p@ == m0.p,
                self.s@ == m0.s,
                self.m@ == m0.m,
                self.new_u@ == old(self).new_u@,
                self.new_v@ == old(self).new_v@,
                self.new_m@ == old(self).new_m@,
                self.v@.len() == m0.v.len(),
                all_in_range(self.v@),
                forall|k: int|
                    0 <= k < m0.v.len() ==> #[trigger] self.v@[k] == (if k / (n as int) == 0 && k % (
                    n as int) < j {
                        m0.v[k + n]
                    } else if k / (n as int) == nx - 1 && k % (n as int) < j {
                        m0.v[k - n]
                    } else {
                        m0.v[k]
                    }),
            decreases n - j,
        {
            proof {
                lemma_cell_index(0, j as int, nx as int, n as int);
                lemma_cell_index(1, j as int, nx as int, n as int);
                lemma_cell_index(nx as int - 2, j as int, nx as int, n as int);
                lemma_cell_index(nx as int - 1, j as int, nx as int, n as int);
            }
            self.v[j] = self.v[n + j];
            let top = (nx - 1) * n + j;
            self.v[top] = self.v[(nx - 2) * n + j];
            proof {
                assert forall|k: int|
                    0 <= k < m0.v.len() && #[trigger] (k % (n as int)) == j implies k == (k / (
                n as int)) * (n as int) + j by {
                    vstd::arithmetic::div_mod::lemma_fundamental_div_mod(k, n as int);
                }
                assert((nx as int - 1) * (n as int) - n == (nx as int - 2) * (n as int))
                    by (nonlinear_arith);
            }
            j = j + 1;
        }
        proof {
            assert(self.v@ =~= extrap_v(m0.v, nx as int, n as int));
            assert(self.model() =~= extrapolate_m(m0));
        }
    }

    /// Run the pressure projection for a fixed number of Gauss-Seidel
    /// sweeps. Within a sweep every interior fluid cell with at least one
    /// fluid neighbour gets its divergence relaxed into the adjacent
    /// faces, and its pressure accumulates the matching correction.
    #[verifier::loop_isolation(false)]
    #[verifier::rlimit(100)]
    pub fn solve_incompressibility(&mut self, dt: i64, num_iters: usize, over_relaxation: i64)
        requires
            old(self).wf(),
            1 <= dt,
            fx_in_range(dt as int),
            0 <= over_relaxation <= 2 * FP_ONE,
        ensures
            final(self).wf(),
            final(self).model() == project_m(
                old(self).model(),
                dt as int,
                num_iters as int,
                over_relaxation as int,
            ),
            final(self).num_cells == old(self).num_cells,
            final(self).new_u@ == old(self).new_u@,
            final(self).new_v@ == old(self).new_v@,
            final(self).new_m@ == old(self).new_m@,
    {
        let ghost m0 = old(self).model();
        let n = self.num_y;
        let nx = self.num_x;
        proof {
            lemma_range_product(self.density as int, self.h as int);
        }
        let cp = fx_div(fx_mul(self.density, self.h), dt);
        let ghost st0 = FlowState { u: m0.u, v: m0.v, p: m0.p };
        let mut it: usize = 0;
        while it < num_iters
            invariant
                it <= num_iters,
                self.wf(),
                self.num_x == old(self).num_x,
                self.num_y == old(self).num_y,
                self.num_cells == old(self).num_cells,
                self.h == old(self).h,
                self.density == old(self).density,
                self.s@ == m0.s,
                self.m@ == m0.m,
                self.new_u@ == old(self).new_u@,
                self.new_v@ == old(self).new_v@,
                self.new_m@ == old(self).new_m@,
                (FlowState { u: self.u@, v: self.v@, p: self.p@ }) == sweeps(
                    st0,
                    m0.s,
                    nx as int,
                    n as int,
                    cp as int,
                    over_relaxation as int,
                    it as int,
                ),
            decreases num_iters - it,
        {
            let ghost st_start = FlowState { u: self.u@, v: self.v@, p: self.p@ };
            let ghost goal = sweep(
                st_start,
                m0.s,
                nx as int,
                n as int,
                cp as int,
                over_relaxation as int,
            );
            let mut i: usize = 1;
            while i < nx - 1
                invariant
                    1 <= i <= nx - 1,
                    self.wf(),
                    self.num_x == old(self).num_x,
                    self.num_y == old(self).num_y,
                    self.num_cells == old(self).num_cells,
                    self.h == old(self).h,
                    self.density == old(self).density,
                    self.s@ == m0.s,
                    self.m@ == m0.m,
                    self.new_u@ == old(self).new_u@,
                    self.new_v@ == old(self).new_v@,
                    self.new_m@ == old(self).new_m@,
                    relax_from(
                        FlowState { u: self.u@, v: self.v@, p: self.p@ },
                        m0.s,
                        nx as int,
                        n as int,
                        cp as int,
                        over_relaxation as int,
                        i as int,
                        1,
                    ) == goal,
                decreases nx - 1 - i,
            {
                let mut j: usize = 1;
                while j < n - 1
                    invariant
                        1 <= i < nx - 1,
                        1 <= j <= n - 1,
                        self.wf(),
                        self.num_x == old(self).num_x,
                        self.num_y == old(self).num_y,
                        self.num_cells == old(self).num_cells,
                        self.h == old(self).h,
                        self.density == old(self).density,
                        self.s@ == m0.s,
                        self.m@ == m0.m,
                        self.new_u@ == old(self).new_u@,
                        self.new_v@ == old(self).new_v@,
                        self.new_m@ == old(self).new_m@,
                        relax_from(
                            FlowState { u: self.u@, v: self.v@, p: self.p@ },
                            m0.s,
                            nx as int,
                            n as int,
                            cp as int,
                            over_relaxation as int,
                            i as int,
                            j as int,
                        ) == goal,
                    decreases n - 1 - j,
                {
                    let ghost stb = FlowState { u: self.u@, v: self.v@, p: self.p@ };
                    proof {
                        lemma_cell_index(i as int, j as int, nx as int, n as int);
                        lemma_cell_index(i as int - 1, j as int, nx as int, n as int);
                        lemma_cell_index(i as int + 1, j as int, nx as int, n as int);
                        lemma_cell_index(i as int, j as int - 1, nx as int, n as int);
                        lemma_cell_index(i as int, j as int + 1, nx as int, n as int);
                        assert((i as int - 1) * (n as int) == i as int * (n as int) - n as int)
                            by (nonlinear_arith);
                        assert((i as int + 1) * (n as int) == i as int * (n as int) + n as int)
                            by (nonlinear_arith);
                    }
                    let c = i * n + j;
                    if self.s[c] != 0 {
                        let sx0 = self.s[c - n];
                        let sx1 = self.s[c + n];
                        let sy0 = self.s[c - 1];
                        let sy1 = self.s[c + 1];
                        let k: i64 = (if sx0 != 0 {
                            1i64
                        } else {
                            0i64
                        }) + (if sx1 != 0 {
                            1i64
                        } else {
                            0i64
                        }) + (if sy0 != 0 {
                            1i64
                        } else {
                            0i64
                        }) + (if sy1 != 0 {
                            1i64
                        } else {
                            0i64
                        });
                        if k != 0 {
                            let d = self.u[c + n] - self.u[c] + self.v[c + 1] - self.v[c];
                            let t = fx_tdiv(-d, k);
                            proof {
                                lemma_tdiv_bound(-d as int, k as int, 4 * FP_SAT as int);
                                assert(over_relaxation as int * t as int
                                    <= 0x4000_0000_0000_0000 && over_relaxation as int
                                    * t as int >= -0x4000_0000_0000_0000) by (nonlinear_arith)
                                    requires
                                        0 <= over_relaxation <= 2 * FP_ONE,
                                        -(4 * FP_SAT as int) <= t as int <= 4 * FP_SAT as int,
                                ;
                            }
                            let pc = fx_mul(over_relaxation, t);
                            proof {
                                lemma_range_product(cp as int, pc as int);
                            }
                            let dp = fx_mul(cp, pc);
                            let np = fx_add(self.p[c], dp);
                            self.p[c] = np;
                            if sx0 != 0 {
                                let nu = fx_sub(self.u[c], pc);
                                self.u[c] = nu;
                            }
                            if sx1 != 0 {
                                let nu = fx_add(self.u[c + n], pc);
                                self.u[c + n] = nu;
                            }
                            if sy0 != 0 {
                                let nv = fx_sub(self.v[c], pc);
                                self.v[c] = nv;
                            }
                            if sy1 != 0 {
                                let nv = fx_add(self.v[c + 1], pc);
                                self.v[c + 1] = nv;
                            }
                        }
                    }
                    proof {
                        assert(FlowState { u: self.u@, v: self.v@, p: self.p@ } =~= relax_cell(
                            stb,
                            m0.s,
                            n as int,
                            cp as int,
                            over_relaxation as int,
                            i as int,
                            j as int,
                        ));
                        assert(relax_from(
                            stb,
                            m0.s,
                            nx as int,
                            n as int,
                            cp as int,
                            over_relaxation as int,
                            i as int,
                            j as int,
                        ) == relax_from(
                            relax_cell(
                                stb,
                                m0.s,
                                n as int,
                                cp as int,
                                over_relaxation as int,
                                i as int,
                                j as int,
                            ),
                            m0.s,
                            nx as int,
                            n as int,
                            cp as int,
                            over_relaxation as int,
                            i as int,
                            j as int + 1,
                        ));
                    }
                    j = j + 1;
                }
                i = i + 1;
            }
            proof {
                assert(FlowState { u: self.u@, v: self.v@, p: self.p@ } == goal);
                assert(sweeps(
                    st0,
                    m0.s,
                    nx as int,
                    n as int,
                    cp as int,
                    over_relaxation as int,
                    it as int + 1,
                ) == sweep(
                    sweeps(
                        st0,
                        m0.s,
                        nx as int,
                        n as int,
                        cp as int,
                        over_relaxation as int,
                        it as int,
                    ),
                    m0.s,
                    nx as int,
                    n as int,
                    cp as int,
                    over_relaxation as int,
                ));
            }
            it = it + 1;
        }
        proof {
            assert(self.model() =~= project_m(
                m0,
                dt as int,
                num_iters as int,
                over_relaxation as int,
            ));
        }
    }
    /// Advect both velocity components semi-Lagrangianly: compute into the
    /// scratch buffers from the unmodified fields, then copy back, so no
    /// face ever reads a partially advected neighbour.
    #[verifier::loop_isolation(false)]
    #[verifier::rlimit(100)]
    pub fn advect_vel(&mut self, dt: i64)
        requires
            old(self).wf(),
            fx_in_range(dt as int),
        ensures
            final(self).wf(),
            final(self).model() == advect_vel_m(old(self).model(), dt as int),
            final(self).num_cells == old(self).num_cells,
            final(self).new_m@ == old(self).new_m@,
    {
        let ghost m0 = old(self).model();
        let n = self.num_y;
        let nx = self.num_x;
        let h = self.h;
        proof {
            vstd::arithmetic::div_mod::lemma_fundamental_div_mod(h as int, 2);
            vstd::arithmetic::div_mod::lemma_mod_bound(h as int, 2);
            vstd::arithmetic::div_mod::lemma_div_pos_is_pos(h as int, 2);
        }
        let h2 = h / 2;
        copy_into(&mut self.new_u, &self.u);
        copy_into(&mut self.new_v, &self.v);
        let mut i: usize = 0;
        while i < nx
            invariant
                i <= nx,
                self.wf(),
                self.num_x == old(self).num_x,
                self.num_y == old(self).num_y,
                self.num_cells == old(self).num_cells,
                self.h == old(self).h,
                self.density == old(self).density,
                self.u@ == m0.u,
                self.v@ == m0.v,
                self.p@ == m0.p,
                self.s@ == m0.s,
                self.m@ == m0.m,
                self.new_m@ == old(self).new_m@,
                self.new_u@.len() == m0.u.len(),
                self.new_v@.len() == m0.v.len(),
                forall|k: int|
                    0 <= k < m0.u.len() ==> #[trigger] self.new_u@[k] == (if k < i * (n as int) {
                        advect_u_cell(m0, dt as int, k)
                    } else {
                        m0.u[k]
                    }),
                forall|k: int|
                    0 <= k < m0.v.len() ==> #[trigger] self.new_v@[k] == (if k < i * (n as int) {
                        advect_v_cell(m0, dt as int, k)
                    } else {
                        m0.v[k]
                    }),
            decreases nx - i,
        {
            let mut j: usize = 0;
            while j < n
                invariant
                    i < nx,
                    j <= n,
                    self.wf(),
                    self.num_x == old(self).num_x,
                    self.num_y == old(self).num_y,
                    self.num_cells == old(self).num_cells,
                    self.h == old(self).h,
                    self.density == old(self).density,
                    self.u@ == m0.u,
                    self.v@ == m0.v,
                    self.p@ == m0.p,
                    self.s@ == m0.s,
                    self.m@ == m0.m,
                    self.new_m@ == old(self).new_m@,
                    self.new_u@.len() == m0.u.len(),
                    self.new_v@.len() == m0.v.len(),
                    forall|k: int|
                        0 <= k < m0.u.len() ==> #[trigger] self.new_u@[k] == (if k < i * (n as int)
                            + j {
                            advect_u_cell(m0, dt as int, k)
                        } else {
                            m0.u[k]
                        }),
                    forall|k: int|
                        0 <= k < m0.v.len() ==> #[trigger] self.new_v@[k] == (if k < i * (n as int)
                            + j {
                            advect_v_cell(m0, dt as int, k)
                        } else {
                            m0.v[k]
                        }),
                decreases n - j,
            {
                proof {
                    lemma_cell_index(i as int, j as int, nx as int, n as int);
                    assert(self.model() == m0);
                    assert((i as int - 1) * (n as int) == i as int * (n as int) - n as int)
                        by (nonlinear_arith);
                }
                let c = i * n + j;
                if i >= 1 && j < n - 1 && self.s[c] != 0 && self.s[c - n] != 0 {
                    proof {
                        assert(i as int * (h as int) <= nx as int * (h as int)) by (nonlinear_arith)
                            requires
                                0 <= i <= nx,
                                0 <= h,
                        ;
                        assert(0 <= i as int * (h as int)) by (nonlinear_arith)
                            requires
                                0 <= i,
                                0 <= h,
                        ;
                        assert(0 <= j as int * (h as int) && j as int * (h as int) + h2 as int
                            <= n as int * (h as int)) by (nonlinear_arith)
                            requires
                                0 <= j,
                                j + 1 <= n,
                                0 <= h2 <= h,
                        ;
                    }
                    let x = (i as i64) * h;
                    let y = (j as i64) * h + h2;
                    let uv = self.u[c];
                    let av = self.avg_v(i, j);
                    proof {
                        lemma_range_product(dt as int, uv as int);
                        lemma_range_product(dt as int, av as int);
                    }
                    let x2 = fx_sub(x, fx_mul(dt, uv));
                    let y2 = fx_sub(y, fx_mul(dt, av));
                    let nu = self.sample_field(x2, y2, Field::U);
                    self.new_u[c] = nu;
                    proof {
                        assert(nu == advect_u_cell(m0, dt as int, c as int));
                    }
                }
                if j >= 1 && i < nx - 1 && self.s[c] != 0 && self.s[c - 1] != 0 {
                    proof {
                        assert(0 <= i as int * (h as int) && i as int * (h as int) + h2 as int
                            <= nx as int * (h as int)) by (nonlinear_arith)
                            requires
                                0 <= i,
                                i + 1 <= nx,
                                0 <= h2 <= h,
                        ;
                        assert(0 <= j as int * (h as int) && j as int * (h as int) <= n as int * (
                        h as int)) by (nonlinear_arith)
                            requires
                                0 <= j <= n,
                                0 <= h,
                        ;
                    }
                    let x = (i as i64) * h + h2;
                    let y = (j as i64) * h;
                    let ua = self.avg_u(i, j);
                    let vv = self.v[c];
                    proof {
                        lemma_range_product(dt as int, ua as int);
                        lemma_range_product(dt as int, vv as int);
                    }
                    let x2 = fx_sub(x, fx_mul(dt, ua));
                    let y2 = fx_sub(y, fx_mul(dt, vv));
                    let nv = self.sample_field(x2, y2, Field::V);
                    self.new_v[c] = nv;
                    proof {
                        assert(nv == advect_v_cell(m0, dt as int, c as int));
                    }
                }
                j = j + 1;
            }
            proof {
                assert((i + 1) * (n as int) == i * (n as int) + n) by (nonlinear_arith);
            }
            i = i + 1;
        }
        copy_into(&mut self.u, &self.new_u);
        copy_into(&mut self.v, &self.new_v);
        proof {
            assert(self.u@ =~= advect_vel_m(m0, dt as int).u);
            assert(self.v@ =~= advect_vel_m(m0, dt as int).v);
            assert(self.model() =~= advect_vel_m(m0, dt as int));
        }
    }

    /// Advect the smoke density semi-Lagrangianly through the interior
    /// cells, double-buffered like the velocity pass.
    #[verifier::loop_isolation(false)]
    #[verifier::rlimit(100)]
    pub fn advect_smoke(&mut self, dt: i64)
        requires
            old(self).wf(),
            fx_in_range(dt as int),
        ensures
            final(self).wf(),
            final(self).model() == advect_smoke_m(old(self).model(), dt as int),
            final(self).num_cells == old(self).num_cells,
            final(self).new_u@ == old(self).new_u@,
            final(self).new_v@ == old(self).new_v@,
    {
        let ghost m0 = old(self).model();
        let n = self.num_y;
        let nx = self.num_x;
        let h = self.h;
        proof {
            vstd::arithmetic::div_mod::lemma_fundamental_div_mod(h as int, 2);
            vstd::arithmetic::div_mod::lemma_mod_bound(h as int, 2);
            vstd::arithmetic::div_mod::lemma_div_pos_is_pos(h as int, 2);
        }
        let h2 = h / 2;
        copy_into(&mut self.new_m, &self.m);
        proof {
            assert forall|k: int| 0 <= k < n implies !adv_m_applies(m0.s, nx as int, n as int, k) by {
                lemma_cell_index(0, k, nx as int, n as int);
            }
        }
        let mut i: usize = 1;
        while i < nx - 1
            invariant
                1 <= i <= nx - 1,
                self.wf(),
                self.num_x == old(self).num_x,
                self.num_y == old(self).num_y,
                self.num_cells == old(self).num_cells,
                self.h == old(self).h,
                self.density == old(self).density,
                self.u@ == m0.u,
                self.v@ == m0.v,
                self.p@ == m0.p,
                self.s@ == m0.s,
                self.m@ == m0.m,
                self.new_u@ == old(self).new_u@,
                self.new_v@ == old(self).new_v@,
                self.new_m@.len() == m0.m.len(),
                forall|k: int|
                    0 <= k < m0.m.len() ==> #[trigger] self.new_m@[k] == (if k < i * (n as int)
                        && adv_m_applies(m0.s, nx as int, n as int, k) {
                        advect_m_cell(m0, dt as int, k)
                    } else {
                        m0.m[k]
                    }),
            decreases nx - 1 - i,
        {
            proof {
                lemma_cell_index(i as int, 0, nx as int, n as int);
                assert(!adv_m_applies(m0.s, nx as int, n as int, i * (n as int)));
            }
            let mut j: usize = 1;
            while j < n - 1
                invariant
                    1 <= i < nx - 1,
                    1 <= j <= n - 1,
                    self.wf(),
                    self.num_x == old(self).num_x,
                    self.num_y == old(self).num_y,
                    self.num_cells == old(self).num_cells,
                    self.h == old(self).h,
                    self.density == old(self).density,
                    self.u@ == m0.u,
                    self.v@ == m0.v,
                    self.p@ == m0.p,
                    self.s@ == m0.s,
                    self.m@ == m0.m,
                    self.new_u@ == old(self).new_u@,
                    self.new_v@ == old(self).new_v@,
                    self.new_m@.len() == m0.m.len(),
                    forall|k: int|
                        0 <= k < m0.m.len() ==> #[trigger] self.new_m@[k] == (if k < i * (n as int)
                            + j && adv_m_applies(m0.s, nx as int, n as int, k) {
                            advect_m_cell(m0, dt as int, k)
                        } else {
                            m0.m[k]
                        }),
                decreases n - 1 - j,
            {
                proof {
                    lemma_cell_index(i as int, j as int, nx as int, n as int);
                    lemma_cell_index(i as int, j as int + 1, nx as int, n as int);
                    lemma_cell_index(i as int + 1, j as int, nx as int, n as int);
                    assert(self.model() == m0);
                    assert((i as int + 1) * (n as int) == i as int * (n as int) + n as int)
                        by (nonlinear_arith);
                }
                let c = i * n + j;
                if self.s[c] != 0 {
                    proof {
                        assert(0 <= i as int * (h as int) && i as int * (h as int) + h2 as int
                            <= nx as int * (h as int)) by (nonlinear_arith)
                            requires
                                0 <= i,
                                i + 1 <= nx,
                                0 <= h2 <= h,
                        ;
                        assert(0 <= j as int * (h as int) && j as int * (h as int) + h2 as int
                            <= n as int * (h as int)) by (nonlinear_arith)
                            requires
                                0 <= j,
                                j + 1 <= n,
                                0 <= h2 <= h,
                        ;
                        lemma_tdiv_bound(
                            self.u@[c as int] as int + self.u@[c as int + n] as int,
                            2,
                            FP_SAT as int,
                        );
                        lemma_tdiv_bound(
                            self.v@[c as int] as int + self.v@[c as int + 1] as int,
                            2,
                            FP_SAT as int,
                        );
                    }
                    let ua = fx_tdiv(self.u[c] + self.u[c + n], 2);
                    let va = fx_tdiv(self.v[c] + self.v[c + 1], 2);
                    proof {
                        lemma_range_product(dt as int, ua as int);
                        lemma_range_product(dt as int, va as int);
                    }
                    let x = fx_sub((i as i64) * h + h2, fx_mul(dt, ua));
                    let y = fx_sub((j as i64) * h + h2, fx_mul(dt, va));
                    let nm = self.sample_field(x, y, Field::S);
                    self.new_m[c] = nm;
                    proof {
                        assert(nm == advect_m_cell(m0, dt as int, c as int));
                    }
                }
                j = j + 1;
            }
            proof {
                lemma_cell_index(i as int, n as int - 1, nx as int, n as int);
                assert(!adv_m_applies(m0.s, nx as int, n as int, i * (n as int) + (n - 1)));
                assert((i + 1) * (n as int) == i * (n as int) + n) by (nonlinear_arith);
            }
            i = i + 1;
        }
        proof {
            assert(nx * (n as int) == (nx - 1) * (n as int) + n) by (nonlinear_arith);
            assert forall|k: int|
                (nx - 1) * (n as int) <= k < nx * (n as int) implies !adv_m_applies(
                m0.s,
                nx as int,
                n as int,
                k,
            ) by {
                lemma_cell_index(nx as int - 1, k - (nx - 1) * (n as int), nx as int, n as int);
            }
        }
        copy_into(&mut self.m, &self.new_m);
        proof {
            assert(self.m@ =~= advect_smoke_m(m0, dt as int).m);
            assert(self.model() =~= advect_smoke_m(m0, dt as int));
        }
    }

}

} // verus!
