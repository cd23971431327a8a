//! The scene driver: simulation parameters, the four boundary-condition
//! presets, obstacle placement, and the fixed per-frame step pipeline
//! (integrate, clear pressure, project, extrapolate, advect velocity,
//! advect smoke).

use vstd::prelude::*;
use crate::fixed::{
    FP_ONE, FP_SAT, fx_in_range, tdiv, fxs_mul, fxs_div, fxs_sub, fxc, fx_sub, fx_mul, fx_div,
    lemma_range_product,
};
use crate::fluid::{
    Fluid, FluidModel, fresh_m, integrate_m, project_m, extrapolate_m, advect_vel_m,
    advect_smoke_m, fill_zero_vec, lemma_cell_index,
};

verus! {

/// The height of the visible domain in world units (one unit).
pub const SIM_HEIGHT: i64 = 65536;

/// Default obstacle radius (0.15 world units).
pub const OBSTACLE_RADIUS: i64 = 9830;

/// Fluid density (1000 in fixed point).
pub const DENSITY: i64 = 65536000;

/// Default gravity (-9.81 in fixed point).
pub const GRAVITY: i64 = -642908;

/// Default pressure-solver iteration budget.
pub const NUMBER_ITERATIONS: usize = 40;

/// Default over-relaxation factor (1.9 in fixed point).
pub const OVERRELAXATION: i64 = 124518;

/// Default timestep (one sixtieth of a second in fixed point).
pub const TIMESTEP: i64 = 1092;

/// Halved timestep of the high-resolution tunnel (1/120 s).
pub const TIMESTEP_HIRES: i64 = 546;

/// Inflow x-velocity of the wind-tunnel presets (2.0 in fixed point).
pub const VELOCITY_IN: i64 = 131072;

/// Obstacle radius of the painting preset (0.05 world units).
pub const PAINT_RADIUS: i64 = 3276;

/// Smoke value stamped into painted cells (0.5 + 0.5 * sin(0.2)).
pub const PAINT_DYE: i64 = 39278;

/// Lower x margin for obstacle placement (0.2 world units).
pub const MARGIN_LO_X: i64 = 13107;

/// Margin on the other sides (0.1 world units).
pub const MARGIN: i64 = 6553;

/// One hundredth, the screen-to-world scale of the placement bounds.
pub const HUNDREDTH: i64 = 655;

/// The four boundary-condition presets.
#[derive(PartialEq, Eq, Structural, Clone, Copy, Debug)]
pub enum SceneType {
    WindTunnel,
    HiresTunnel,
    Tank,
    Paint,
}

/// A two-dimensional vector of fixed-point world coordinates.
#[derive(PartialEq, Eq, Structural, Clone, Copy, Debug)]
pub struct FxVec2 {
    pub x: i64,
    pub y: i64,
}

/// The scene driver: owns the grid store and the per-frame parameters.
pub struct FluidScene {
    pub gravity: i64,
    pub dt: i64,
    pub num_iters: usize,
    pub frame_nr: usize,
    pub over_relaxation: i64,
    pub obstacle_pos: FxVec2,
    pub obstacle_radius: i64,
    pub show_streamlines: bool,
    pub show_velocities: bool,
    pub show_pressure: bool,
    pub show_smoke: bool,
    pub show_smoke_gradient: bool,
    pub scale: i64,
    pub width: i64,
    pub height: i64,
    pub fluid: Fluid,
    pub scene_type: SceneType,
}

/// The tank preset's solid mask: left and right columns and the bottom
/// row solid, the top open.
pub open spec fn tank_mask_m(fm: FluidModel) -> FluidModel {
    FluidModel {
        s: Seq::new(
            fm.s.len(),
            |k: int|
                if k / fm.ny == 0 || k / fm.ny == fm.nx - 1 || k % fm.ny == 0 {
                    0i64
                } else {
                    FP_ONE
                },
        ),
        ..fm
    }
}

/// The tunnel presets' boundary state: left wall and top and bottom rows
/// solid, a constant inflow velocity in the second column, and a clean
/// (smoke-free) pipe of a tenth of the height at the inlet column.
pub open spec fn tunnel_m(fm: FluidModel) -> FluidModel {
    let min_j = tdiv(9 * fm.ny, 20);
    let max_j = tdiv(11 * fm.ny, 20);
    FluidModel {
        s: Seq::new(
            fm.s.len(),
            |k: int|
                if k / fm.ny == 0 || k % fm.ny == 0 || k % fm.ny == fm.ny - 1 {
                    0i64
                } else {
                    FP_ONE
                },
        ),
        u: Seq::new(
            fm.u.len(),
            |k: int|
                if k / fm.ny == 1 {
                    VELOCITY_IN
                } else {
                    fm.u[k]
                },
        ),
        m: Seq::new(
            fm.m.len(),
            |k: int|
                if min_j <= k < max_j {
                    0i64
                } else {
                    fm.m[k]
                },
        ),
        ..fm
    }
}

/// Pressure cleared to zero, as at the start of every step.
pub open spec fn clear_p_m(fm: FluidModel) -> FluidModel {
    FluidModel { p: Seq::new(fm.p.len(), |k: int| 0i64), ..fm }
}

/// One full step of the pipeline on a grid view, in the load-bearing
/// order: integrate, clear pressure, project, extrapolate, advect
/// velocity, advect smoke.
pub open spec fn step_m(fm: FluidModel, dt: int, gravity: int, iters: int, or: int) -> FluidModel {
    advect_smoke_m(
        advect_vel_m(
            extrapolate_m(project_m(clear_p_m(integrate_m(fm, dt, gravity)), dt, iters, or)),
            dt,
        ),
        dt,
    )
}

/// The region redefined by obstacle placement: interior cells away from
/// the border and the solver's own boundary rows.
pub open spec fn obst_scanned(nx: int, ny: int, i: int, j: int) -> bool {
    1 <= i < nx - 2 && 1 <= j < ny - 2
}

/// Whether the centre of cell `(i, j)` lies strictly inside the circle
/// of radius `r` around `(px, py)`.
pub open spec fn obst_hit(h: int, px: int, py: int, r: int, i: int, j: int) -> bool {
    let dx = i * h + tdiv(h, 2) - px;
    let dy = j * h + tdiv(h, 2) - py;
    dx * dx + dy * dy < r * r
}

/// Whether a placement target lies inside the margin-bounded interior
/// region; outside it the request is ignored.
pub open spec fn obstacle_allowed(width: int, height: int, px: int, py: int) -> bool {
    &&& px >= MARGIN_LO_X
    &&& px <= fxs_mul(width, HUNDREDTH as int) - MARGIN
    &&& py >= MARGIN
    &&& py <= fxs_mul(height, HUNDREDTH as int) - MARGIN
}

/// The smoke value stamped into obstacle cells: a fixed dye value when
/// painting, full smoke otherwise.
pub open spec fn obstacle_dye(t: SceneType) -> i64 {
    if t == SceneType::Paint {
        PAINT_DYE
    } else {
        FP_ONE
    }
}

/// The velocity imparted by a drag: displacement over the timestep, or
/// zero for a reset (teleport).
pub open spec fn drag_velocity(newp: int, oldp: int, dt: int, reset: bool) -> i64 {
    if reset {
        0i64
    } else {
        fxc(fxs_div(fxs_sub(newp, oldp), dt))
    }
}

/// Obstacle placement on a grid view: every scanned cell becomes fluid
/// or, strictly inside the circle, solid; hit cells take the dye value
/// and their bounding faces the imparted velocity.
pub open spec fn set_obstacle_m(
    fm: FluidModel,
    px: int,
    py: int,
    r: int,
    vx: i64,
    vy: i64,
    dye: i64,
) -> FluidModel {
    FluidModel {
        s: Seq::new(
            fm.s.len(),
            |k: int|
                {
                    let i = k / fm.ny;
                    let j = k % fm.ny;
                    if obst_scanned(fm.nx, fm.ny, i, j) {
                        if obst_hit(fm.h, px, py, r, i, j) {
                            0i64
                        } else {
                            FP_ONE
                        }
                    } else {
                        fm.s[k]
                    }
                },
        ),
        m: Seq::new(
            fm.m.len(),
            |k: int|
                {
                    let i = k / fm.ny;
                    let j = k % fm.ny;
                    if obst_scanned(fm.nx, fm.ny, i, j) && obst_hit(fm.h, px, py, r, i, j) {
                        dye
                    } else {
                        fm.m[k]
                    }
                },
        ),
        u: Seq::new(
            fm.u.len(),
            |k: int|
                {
                    let i = k / fm.ny;
                    let j = k % fm.ny;
                    if (obst_scanned(fm.nx, fm.ny, i, j) && obst_hit(fm.h, px, py, r, i, j)) || (
                    obst_scanned(fm.nx, fm.ny, i - 1, j) && obst_hit(fm.h, px, py, r, i - 1, j)) {
                        vx
                    } else {
                        fm.u[k]
                    }
                },
        ),
        v: Seq::new(
            fm.v.len(),
            |k: int|
                {
                    let i = k / fm.ny;
                    let j = k % fm.ny;
                    if (obst_scanned(fm.nx, fm.ny, i, j) && obst_hit(fm.h, px, py, r, i, j)) || (
                    obst_scanned(fm.nx, fm.ny, i, j - 1) && obst_hit(fm.h, px, py, r, i, j - 1)) {
                        vy
                    } else {
                        fm.v[k]
                    }
                },
        ),
        ..fm
    }
}

/// Row-major order over the scan: whether cell `(i, j)` comes before the
/// cursor `(ci, cj)`.
pub open spec fn obst_done(i: int, j: int, ci: int, cj: int) -> bool {
    i < ci || (i == ci && j < cj)
}


/// The solid mask mid-scan, with the cursor at `(ci, cj)`.
pub open spec fn obst_s_val(fm: FluidModel, px: int, py: int, r: int, ci: int, cj: int, k: int) -> i64 {
    let i = k / fm.ny;
    let j = k % fm.ny;
    if obst_scanned(fm.nx, fm.ny, i, j) && obst_done(i, j, ci, cj) {
        if obst_hit(fm.h, px, py, r, i, j) {
            0i64
        } else {
            FP_ONE
        }
    } else {
        fm.s[k]
    }
}

/// The smoke field mid-scan.
pub open spec fn obst_m_val(fm: FluidModel, px: int, py: int, r: int, dye: i64, ci: int, cj: int, k: int) -> i64 {
    let i = k / fm.ny;
    let j = k % fm.ny;
    if obst_scanned(fm.nx, fm.ny, i, j) && obst_done(i, j, ci, cj) && obst_hit(fm.h, px, py, r, i, j) {
        dye
    } else {
        fm.m[k]
    }
}

/// The x-velocity mid-scan: a face is stamped by its own cell or by its
/// left neighbour.
pub open spec fn obst_u_val(fm: FluidModel, px: int, py: int, r: int, vx: i64, ci: int, cj: int, k: int) -> i64 {
    let i = k / fm.ny;
    let j = k % fm.ny;
    if (obst_scanned(fm.nx, fm.ny, i, j) && obst_done(i, j, ci, cj) && obst_hit(fm.h, px, py, r, i, j))
        || (obst_scanned(fm.nx, fm.ny, i - 1, j) && obst_done(i - 1, j, ci, cj) && obst_hit(fm.h, px, py, r, i - 1, j)) {
        vx
    } else {
        fm.u[k]
    }
}

/// The y-velocity mid-scan: a face is stamped by its own cell or by the
/// cell below it.
pub open spec fn obst_v_val(fm: FluidModel, px: int, py: int, r: int, vy: i64, ci: int, cj: int, k: int) -> i64 {
    let i = k / fm.ny;
    let j = k % fm.ny;
    if (obst_scanned(fm.nx, fm.ny, i, j) && obst_done(i, j, ci, cj) && obst_hit(fm.h, px, py, r, i, j))
        || (obst_scanned(fm.nx, fm.ny, i, j - 1) && obst_done(i, j - 1, ci, cj) && obst_hit(fm.h, px, py, r, i, j - 1)) {
        vy
    } else {
        fm.v[k]
    }
}

/// All scalar scene parameters of `a` equal those of `b` (the grid aside).
pub open spec fn params_unchanged(a: FluidScene, b: FluidScene) -> bool {
    &&& a.gravity == b.gravity
    &&& a.dt == b.dt
    &&& a.num_iters == b.num_iters
    &&& a.frame_nr == b.frame_nr
    &&& a.over_relaxation == b.over_relaxation
    &&& a.obstacle_pos == b.obstacle_pos
    &&& a.obstacle_radius == b.obstacle_radius
    &&& a.show_streamlines == b.show_streamlines
    &&& a.show_velocities == b.show_velocities
    &&& a.show_pressure == b.show_pressure
    &&& a.show_smoke == b.show_smoke
    &&& a.show_smoke_gradient == b.show_smoke_gradient
    &&& a.scale == b.scale
    &&& a.width == b.width
    &&& a.height == b.height
    &&& a.scene_type == b.scene_type
}

impl FluidScene {
    /// Well-formed scene: the grid is well formed and every parameter is
    /// in range for the step pipeline.
    pub open spec fn wf(self) -> bool {
        &&& self.fluid.wf()
        &&& 1 <= self.dt
        &&& fx_in_range(self.dt as int)
        &&& fx_in_range(self.gravity as int)
        &&& 0 <= self.over_relaxation <= 2 * FP_ONE
        &&& fx_in_range(self.obstacle_pos.x as int)
        &&& fx_in_range(self.obstacle_pos.y as int)
        &&& 0 <= self.obstacle_radius <= FP_SAT
        &&& 0 <= self.scale <= FP_SAT
        &&& 1 <= self.width <= FP_SAT
        &&& 1 <= self.height <= FP_SAT
    }

    /// World x-coordinate to canvas x-coordinate.
    pub fn c_x(&self, x: i64, scale: i64) -> (r: i64)
        requires
            fx_in_range(x as int),
            fx_in_range(scale as int),
        ensures
            r as int == fxs_mul(x as int, scale as int),
    {
        proof {
            lemma_range_product(x as int, scale as int);
        }
        fx_mul(x, scale)
    }

    /// World y-coordinate to canvas y-coordinate (the canvas y axis
    /// points down).
    pub fn c_y(&self, y: i64, height: i64, scale: i64) -> (r: i64)
        requires
            fx_in_range(y as int),
            fx_in_range(height as int),
            fx_in_range(scale as int),
        ensures
            r as int == crate::fixed::fxs_sub(height as int, fxs_mul(y as int, scale as int)),
    {
        proof {
            lemma_range_product(y as int, scale as int);
        }
        fx_sub(height, fx_mul(y, scale))
    }

    /// Advance the simulation by one frame: apply gravity, clear and
    /// re-solve the pressure, extrapolate the boundary velocities, then
    /// advect velocity and smoke, and count the frame.
    pub fn step(&mut self, dt: i64)
        requires
            old(self).wf(),
            1 <= dt,
            fx_in_range(dt as int),
            old(self).frame_nr < usize::MAX,
        ensures
            final(self).wf(),
            final(self).dt == dt,
            final(self).frame_nr == old(self).frame_nr + 1,
            final(self).fluid.model() == step_m(
                old(self).fluid.model(),
                dt as int,
                old(self).gravity as int,
                old(self).num_iters as int,
                old(self).over_relaxation as int,
            ),
            final(self).gravity == old(self).gravity,
            final(self).num_iters == old(self).num_iters,
            final(self).over_relaxation == old(self).over_relaxation,
            final(self).obstacle_pos == old(self).obstacle_pos,
            final(self).obstacle_radius == old(self).obstacle_radius,
            final(self).scene_type == old(self).scene_type,
            final(self).scale == old(self).scale,
            final(self).width == old(self).width,
            final(self).height == old(self).height,
    {
        let ghost fm0 = old(self).fluid.model();
        self.dt = dt;
        self.fluid.integrate(dt, self.gravity);
        let ghost fm1 = integrate_m(fm0, dt as int, old(self).gravity as int);
        fill_zero_vec(&mut self.fluid.p);
        proof {
            assert(self.fluid.model() =~= clear_p_m(fm1));
        }
        self.fluid.solve_incompressibility(dt, self.num_iters, self.over_relaxation);
        self.fluid.extrapolate();
        self.fluid.advect_vel(dt);
        self.fluid.advect_smoke(dt);
        self.frame_nr = self.frame_nr + 1;
    }
    /// The tank preset: left, right and bottom walls solid, top open,
    /// gravity on, pressure display on.
    #[verifier::loop_isolation(false)]
    fn setup_tank(&mut self)
        requires
            old(self).wf(),
        ensures
            final(self).wf(),
            final(self).scene_type == SceneType::Tank,
            final(self).gravity == GRAVITY,
            final(self).show_pressure == true,
            final(self).show_smoke == false,
            final(self).show_streamlines == false,
            final(self).show_velocities == false,
            final(self).fluid.model() == tank_mask_m(old(self).fluid.model()),
            final(self).dt == old(self).dt,
            final(self).num_iters == old(self).num_iters,
            final(self).frame_nr == old(self).frame_nr,
            final(self).over_relaxation == old(self).over_relaxation,
            final(self).obstacle_pos == old(self).obstacle_pos,
            final(self).obstacle_radius == old(self).obstacle_radius,
            final(self).show_smoke_gradient == old(self).show_smoke_gradient,
            final(self).scale == old(self).scale,
            final(self).width == old(self).width,
            final(self).height == old(self).height,
    {
        let ghost m0 = old(self).fluid.model();
        let n = self.fluid.num_y;
        let nx = self.fluid.num_x;
        let mut i: usize = 0;
        while i < nx
            invariant
                i <= nx,
                self.fluid.wf(),
                params_unchanged(*self, *old(self)),
                self.fluid.num_x == old(self).fluid.num_x,
                self.fluid.num_y == old(self).fluid.num_y,
                self.fluid.num_cells == old(self).fluid.num_cells,
                self.fluid.h == old(self).fluid.h,
                self.fluid.density == old(self).fluid.density,
                self.fluid.u@ == m0.u,
                self.fluid.v@ == m0.v,
                self.fluid.p@ == m0.p,
                self.fluid.m@ == m0.m,
                self.fluid.new_u@ == old(self).fluid.new_u@,
                self.fluid.new_v@ == old(self).fluid.new_v@,
                self.fluid.new_m@ == old(self).fluid.new_m@,
                self.fluid.s@.len() == m0.s.len(),
                forall|k: int|
                    0 <= k < m0.s.len() ==> #[trigger] self.fluid.s@[k] == (if k < i * (n as int) {
                        if k / (n as int) == 0 || k / (n as int) == nx - 1 || k % (n as int) == 0 {
                            0i64
                        } else {
                            FP_ONE
                        }
                    } else {
                        m0.s[k]
                    }),
            decreases nx - i,
        {
            let mut j: usize = 0;
            while j < n
                invariant
                    i < nx,
                    j <= n,
                    self.fluid.wf(),
                    params_unchanged(*self, *old(self)),
                    self.fluid.num_x == old(self).fluid.num_x,
                    self.fluid.num_y == old(self).fluid.num_y,
                    self.fluid.num_cells == old(self).fluid.num_cells,
                    self.fluid.h == old(self).fluid.h,
                    self.fluid.density == old(self).fluid.density,
                    self.fluid.u@ == m0.u,
                    self.fluid.v@ == m0.v,
                    self.fluid.p@ == m0.p,
                    self.fluid.m@ == m0.m,
                    self.fluid.new_u@ == old(self).fluid.new_u@,
                    self.fluid.new_v@ == old(self).fluid.new_v@,
                    self.fluid.new_m@ == old(self).fluid.new_m@,
                    self.fluid.s@.len() == m0.s.len(),
                    forall|k: int|
                        0 <= k < m0.s.len() ==> #[trigger] self.fluid.s@[k] == (if k < i * (
                        n as int) + j {
                            if k / (n as int) == 0 || k / (n as int) == nx - 1 || k % (n as int)
                                == 0 {
                                0i64
                            } else {
                                FP_ONE
                            }
                        } else {
                            m0.s[k]
                        }),
                decreases n - j,
            {
                proof {
                    lemma_cell_index(i as int, j as int, nx as int, n as int);
                }
                let c = i * n + j;
                if i == 0 || i == nx - 1 || j == 0 {
                    self.fluid.s[c] = 0;
                } else {
                    self.fluid.s[c] = FP_ONE;
                }
                j = j + 1;
            }
            proof {
                assert((i + 1) * (n as int) == i * (n as int) + n) by (nonlinear_arith);
            }
            i = i + 1;
        }
        self.scene_type = SceneType::Tank;
        self.gravity = GRAVITY;
        self.show_pressure = true;
        self.show_smoke = false;
        self.show_streamlines = false;
        self.show_velocities = false;
        proof {
            assert(self.fluid.model() =~= tank_mask_m(m0));
        }
    }

    /// The wind-tunnel presets: left wall and top and bottom rows solid,
    /// inflow injected at the second column, a clean inflow pipe in the
    /// smoke, gravity off; the high-resolution variant halves the
    /// timestep, raises the iteration budget and shows pressure.
    #[verifier::loop_isolation(false)]
    fn setup_tunnel(&mut self, scene_type: SceneType)
        requires
            old(self).wf(),
            scene_type == SceneType::WindTunnel || scene_type == SceneType::HiresTunnel,
        ensures
            final(self).wf(),
            final(self).scene_type == scene_type,
            final(self).gravity == 0,
            final(self).show_smoke == true,
            final(self).fluid.model() == tunnel_m(old(self).fluid.model()),
            final(self).dt == (if scene_type == SceneType::HiresTunnel {
                TIMESTEP_HIRES
            } else {
                old(self).dt
            }),
            final(self).num_iters == (if scene_type == SceneType::HiresTunnel {
                100usize
            } else {
                old(self).num_iters
            }),
            final(self).show_pressure == (if scene_type == SceneType::HiresTunnel {
                true
            } else {
                old(self).show_pressure
            }),
            final(self).frame_nr == old(self).frame_nr,
            final(self).over_relaxation == old(self).over_relaxation,
            final(self).obstacle_pos == old(self).obstacle_pos,
            final(self).obstacle_radius == old(self).obstacle_radius,
            final(self).show_streamlines == old(self).show_streamlines,
            final(self).show_velocities == old(self).show_velocities,
            final(self).show_smoke_gradient == old(self).show_smoke_gradient,
            final(self).scale == old(self).scale,
            final(self).width == old(self).width,
            final(self).height == old(self).height,
    {
        let ghost m0 = old(self).fluid.model();
        let n = self.fluid.num_y;
        let nx = self.fluid.num_x;
        let mut i: usize = 0;
        while i < nx
            invariant
                i <= nx,
                self.fluid.wf(),
                params_unchanged(*self, *old(self)),
                self.fluid.num_x == old(self).fluid.num_x,
                self.fluid.num_y == old(self).fluid.num_y,
                self.fluid.num_cells == old(self).fluid.num_cells,
                self.fluid.h == old(self).fluid.h,
                self.fluid.density == old(self).fluid.density,
                self.fluid.v@ == m0.v,
                self.fluid.p@ == m0.p,
                self.fluid.m@ == m0.m,
                self.fluid.new_u@ == old(self).fluid.new_u@,
                self.fluid.new_v@ == old(self).fluid.new_v@,
                self.fluid.new_m@ == old(self).fluid.new_m@,
                self.fluid.s@.len() == m0.s.len(),
                self.fluid.u@.len() == m0.u.len(),
                forall|k: int|
                    0 <= k < m0.s.len() ==> #[trigger] self.fluid.s@[k] == (if k < i * (n as int) {
                        if k / (n as int) == 0 || k % (n as int) == 0 || k % (n as int) == n - 1 {
                            0i64
                        } else {
                            FP_ONE
                        }
                    } else {
                        m0.s[k]
                    }),
                forall|k: int|
                    0 <= k < m0.u.len() ==> #[trigger] self.fluid.u@[k] == (if k < i * (n as int)
                        && k / (n as int) == 1 {
                        VELOCITY_IN
                    } else {
                        m0.u[k]
                    }),
            decreases nx - i,
        {
            let mut j: usize = 0;
            while j < n
                invariant
                    i < nx,
                    j <= n,
                    self.fluid.wf(),
                    params_unchanged(*self, *old(self)),
                    self.fluid.num_x == old(self).fluid.num_x,
                    self.fluid.num_y == old(self).fluid.num_y,
                    self.fluid.num_cells == old(self).fluid.num_cells,
                    self.fluid.h == old(self).fluid.h,
                    self.fluid.density == old(self).fluid.density,
                    self.fluid.v@ == m0.v,
                    self.fluid.p@ == m0.p,
                    self.fluid.m@ == m0.m,
                    self.fluid.new_u@ == old(self).fluid.new_u@,
                    self.fluid.new_v@ == old(self).fluid.new_v@,
                    self.fluid.new_m@ == old(self).fluid.new_m@,
                    self.fluid.s@.len() == m0.s.len(),
                    self.fluid.u@.len() == m0.u.len(),
                    forall|k: int|
                        0 <= k < m0.s.len() ==> #[trigger] self.fluid.s@[k] == (if k < i * (
                        n as int) + j {
                            if k / (n as int) == 0 || k % (n as int) == 0 || k % (n as int) == n
                                - 1 {
                                0i64
                            } else {
                                FP_ONE
                            }
                        } else {
                            m0.s[k]
                        }),
                    forall|k: int|
                        0 <= k < m0.u.len() ==> #[trigger] self.fluid.u@[k] == (if k < i * (
                        n as int) + j && k / (n as int) == 1 {
                            VELOCITY_IN
                        } else {
                            m0.u[k]
                        }),
                decreases n - j,
            {
                proof {
                    lemma_cell_index(i as int, j as int, nx as int, n as int);
                }
                let c = i * n + j;
                if i == 0 || j == 0 || j == n - 1 {
                    self.fluid.s[c] = 0;
                } else {
                    self.fluid.s[c] = FP_ONE;
                }
                if i == 1 {
                    self.fluid.u[c] = VELOCITY_IN;
                }
                j = j + 1;
            }
            proof {
                assert((i + 1) * (n as int) == i * (n as int) + n) by (nonlinear_arith);
            }
            i = i + 1;
        }
        let min_j = (n * 9) / 20;
        let max_j = (n * 11) / 20;
        proof {
            vstd::arithmetic::div_mod::lemma_multiply_divide_lt(11 * n as int, 20, n as int);
            vstd::arithmetic::div_mod::lemma_div_pos_is_pos(9 * n as int, 20);
            assert(max_j < n);
            assert(n as int <= nx as int * (n as int)) by (nonlinear_arith)
                requires
                    1 <= nx,
                    0 <= n,
            ;
        }
        let ghost m_mid = self.fluid.m@;
        let mut j: usize = min_j;
        while j < max_j
            invariant
                min_j <= j <= max_j,
                max_j < n <= self.fluid.num_cells,
                self.fluid.wf(),
                params_unchanged(*self, *old(self)),
                self.fluid.num_x == old(self).fluid.num_x,
                self.fluid.num_y == old(self).fluid.num_y,
                self.fluid.num_cells == old(self).fluid.num_cells,
                self.fluid.h == old(self).fluid.h,
                self.fluid.density == old(self).fluid.density,
                self.fluid.u@ == tunnel_m(m0).u,
                self.fluid.s@ == tunnel_m(m0).s,
                self.fluid.v@ == m0.v,
                self.fluid.p@ == m0.p,
                self.fluid.new_u@ == old(self).fluid.new_u@,
                self.fluid.new_v@ == old(self).fluid.new_v@,
                self.fluid.new_m@ == old(self).fluid.new_m@,
                self.fluid.m@.len() == m0.m.len(),
                forall|k: int|
                    0 <= k < m0.m.len() ==> #[trigger] self.fluid.m@[k] == (if min_j <= k < j {
                        0i64
                    } else {
                        m0.m[k]
                    }),
            decreases max_j - j,
        {
            self.fluid.m[j] = 0;
            j = j + 1;
        }
        self.scene_type = scene_type;
        self.gravity = 0;
        self.show_smoke = true;
        if scene_type == SceneType::HiresTunnel {
            self.dt = TIMESTEP_HIRES;
            self.num_iters = 100;
            self.show_pressure = true;
        }
        proof {
            assert(self.fluid.model() =~= tunnel_m(m0));
        }
    }

    /// The painting preset: no extra walls, gravity off, plain (neutral)
    /// relaxation for stability, a small obstacle used as a brush, and
    /// gradient-coloured smoke display.
    fn setup_paint(&mut self)
        requires
            old(self).wf(),
        ensures
            final(self).wf(),
            final(self).scene_type == SceneType::Paint,
            final(self).gravity == 0,
            final(self).over_relaxation == FP_ONE,
            final(self).obstacle_radius == PAINT_RADIUS,
            final(self).frame_nr == 0,
            final(self).show_smoke == true,
            final(self).show_smoke_gradient == true,
            final(self).show_pressure == false,
            final(self).fluid == old(self).fluid,
            final(self).dt == old(self).dt,
            final(self).num_iters == old(self).num_iters,
            final(self).obstacle_pos == old(self).obstacle_pos,
            final(self).show_streamlines == old(self).show_streamlines,
            final(self).show_velocities == old(self).show_velocities,
            final(self).scale == old(self).scale,
            final(self).width == old(self).width,
            final(self).height == old(self).height,
    {
        self.scene_type = SceneType::Paint;
        self.gravity = 0;
        self.over_relaxation = FP_ONE;
        self.obstacle_radius = PAINT_RADIUS;
        self.frame_nr = 0;
        self.show_smoke = true;
        self.show_smoke_gradient = true;
        self.show_pressure = false;
    }

    /// Build a scene for a visible area of `width` by `height` pixels
    /// (as fixed-point numbers) with the chosen preset. The grid
    /// resolution follows the preset; the cell size derives from the
    /// one-unit domain height, and the domain width from the aspect
    /// ratio. The aspect ratio must be between one twentieth and one
    /// hundred so that the grid stays within its representable size.
    #[verifier::rlimit(100)]
    pub fn new(width: i64, height: i64, scene_type: SceneType) -> (r: FluidScene)
        requires
            1 <= height <= FP_SAT,
            1 <= width <= FP_SAT,
            3277 <= fxs_div(width as int, height as int) <= 6553600,
        ensures
            r.wf(),
            r.scene_type == scene_type,
            r.width == width,
            r.height == height,
            r.scale == height,
            r.frame_nr == 0,
            r.fluid.density == DENSITY,
            r.fluid.h as int == FP_ONE as int / (if scene_type == SceneType::Tank {
                50int
            } else {
                100int
            }),
            r.fluid.num_y as int == FP_ONE as int / (r.fluid.h as int) + 2,
            r.fluid.num_x as int == fxs_div(width as int, height as int) / (r.fluid.h as int) + 2,
            r.dt == (if scene_type == SceneType::HiresTunnel {
                TIMESTEP_HIRES
            } else {
                TIMESTEP
            }),
            r.num_iters == (if scene_type == SceneType::HiresTunnel {
                100usize
            } else {
                NUMBER_ITERATIONS
            }),
            r.gravity == (if scene_type == SceneType::Tank {
                GRAVITY
            } else {
                0i64
            }),
            r.over_relaxation == (if scene_type == SceneType::Paint {
                FP_ONE
            } else {
                OVERRELAXATION
            }),
            r.obstacle_radius == (if scene_type == SceneType::Paint {
                PAINT_RADIUS
            } else {
                OBSTACLE_RADIUS
            }),
            r.obstacle_pos == (FxVec2 { x: 0i64, y: 0i64 }),
            r.show_pressure == (scene_type == SceneType::Tank || scene_type
                == SceneType::HiresTunnel),
            r.show_smoke == (scene_type != SceneType::Tank),
            r.show_smoke_gradient == (scene_type == SceneType::Paint),
            r.show_streamlines == false,
            r.show_velocities == false,
            r.fluid.model() == (match scene_type {
                SceneType::Tank => tank_mask_m(
                    fresh_m(
                        DENSITY as int,
                        r.fluid.num_x as int,
                        r.fluid.num_y as int,
                        r.fluid.h as int,
                    ),
                ),
                SceneType::WindTunnel | SceneType::HiresTunnel => tunnel_m(
                    fresh_m(
                        DENSITY as int,
                        r.fluid.num_x as int,
                        r.fluid.num_y as int,
                        r.fluid.h as int,
                    ),
                ),
                SceneType::Paint => fresh_m(
                    DENSITY as int,
                    r.fluid.num_x as int,
                    r.fluid.num_y as int,
                    r.fluid.h as int,
                ),
            }),
    {
        let resolution: i64 = match scene_type {
            SceneType::Tank => 50,
            _ => 100,
        };
        let h = FP_ONE / resolution;
        let domain_width = fx_div(width, height);
        let qx = domain_width / h;
        let qy = SIM_HEIGHT / h;
        proof {
            vstd::arithmetic::div_mod::lemma_div_is_ordered(3277, domain_width as int, h as int);
            vstd::arithmetic::div_mod::lemma_div_is_ordered(domain_width as int, 6553600, h as int);
            vstd::arithmetic::div_mod::lemma_fundamental_div_mod(domain_width as int, h as int);
            vstd::arithmetic::div_mod::lemma_mod_bound(domain_width as int, h as int);
            assert((h as int) * (qx as int) == (qx as int) * (h as int)) by (nonlinear_arith);
            assert((qx as int + 2) * (h as int) == (qx as int) * (h as int) + 2 * (h as int))
                by (nonlinear_arith);
        }
        let num_cells_x = (qx as usize) + 2;
        let num_cells_y = (qy as usize) + 2;
        let mut scene = FluidScene {
            gravity: GRAVITY,
            dt: TIMESTEP,
            num_iters: NUMBER_ITERATIONS,
            frame_nr: 0,
            over_relaxation: OVERRELAXATION,
            obstacle_pos: FxVec2 { x: 0, y: 0 },
            obstacle_radius: OBSTACLE_RADIUS,
            show_streamlines: false,
            show_velocities: false,
            show_pressure: false,
            show_smoke: true,
            show_smoke_gradient: false,
            scale: height,
            width,
            height,
            fluid: Fluid::new(DENSITY, num_cells_x, num_cells_y, h),
            scene_type,
        };
        match scene_type {
            SceneType::WindTunnel => scene.setup_tunnel(SceneType::WindTunnel),
            SceneType::HiresTunnel => scene.setup_tunnel(SceneType::HiresTunnel),
            SceneType::Tank => scene.setup_tank(),
            SceneType::Paint => scene.setup_paint(),
        }
        scene
    }

    /// Place or drag the movable obstacle. A target outside the
    /// margin-bounded interior is silently ignored; otherwise the scanned
    /// interior region is fully redefined: cells inside the circle become
    /// solid, take the dye value and the imparted velocity on their
    /// faces, and all other scanned cells become fluid.
    #[verifier::loop_isolation(false)]
    #[verifier::rlimit(100)]
    pub fn set_obstacle(&mut self, pos: FxVec2, reset: bool)
        requires
            old(self).wf(),
            fx_in_range(pos.x as int),
            fx_in_range(pos.y as int),
        ensures
            final(self).wf(),
            !obstacle_allowed(
                old(self).width as int,
                old(self).height as int,
                pos.x as int,
                pos.y as int,
            ) ==> *final(self) == *old(self),
            obstacle_allowed(
                old(self).width as int,
                old(self).height as int,
                pos.x as int,
                pos.y as int,
            ) ==> {
                &&& final(self).obstacle_pos == pos
                &&& final(self).fluid.model() == set_obstacle_m(
                    old(self).fluid.model(),
                    pos.x as int,
                    pos.y as int,
                    old(self).obstacle_radius as int,
                    drag_velocity(
                        pos.x as int,
                        old(self).obstacle_pos.x as int,
                        old(self).dt as int,
                        reset,
                    ),
                    drag_velocity(
                        pos.y as int,
                        old(self).obstacle_pos.y as int,
                        old(self).dt as int,
                        reset,
                    ),
                    obstacle_dye(old(self).scene_type),
                )
                &&& final(self).gravity == old(self).gravity
                &&& final(self).dt == old(self).dt
                &&& final(self).num_iters == old(self).num_iters
                &&& final(self).frame_nr == old(self).frame_nr
                &&& final(self).over_relaxation == old(self).over_relaxation
                &&& final(self).obstacle_radius == old(self).obstacle_radius
                &&& final(self).scene_type == old(self).scene_type
                &&& final(self).scale == old(self).scale
                &&& final(self).width == old(self).width
                &&& final(self).height == old(self).height
            },
    {
        proof {
            lemma_range_product(self.width as int, HUNDREDTH as int);
            lemma_range_product(self.height as int, HUNDREDTH as int);
        }
        let wlim = fx_mul(self.width, HUNDREDTH) - MARGIN;
        let hlim = fx_mul(self.height, HUNDREDTH) - MARGIN;
        if pos.x < MARGIN_LO_X || pos.x > wlim || pos.y < MARGIN || pos.y > hlim {
            return ;
        }
        let ghost m0 = self.fluid.model();
        let vx = if reset {
            0i64
        } else {
            fx_div(fx_sub(pos.x, self.obstacle_pos.x), self.dt)
        };
        let vy = if reset {
            0i64
        } else {
            fx_div(fx_sub(pos.y, self.obstacle_pos.y), self.dt)
        };
        let dye = if self.scene_type == SceneType::Paint {
            PAINT_DYE
        } else {
            FP_ONE
        };
        self.obstacle_pos = pos;
        let r = self.obstacle_radius;
        let n = self.fluid.num_y;
        let nx = self.fluid.num_x;
        let h = self.fluid.h;
        proof {
            vstd::arithmetic::div_mod::lemma_fundamental_div_mod(h as int, 2);
            vstd::arithmetic::div_mod::lemma_mod_bound(h as int, 2);
            vstd::arithmetic::div_mod::lemma_div_pos_is_pos(h as int, 2);
            lemma_range_product(r as int, r as int);
        }
        let h2 = h / 2;
        let r2 = r * r;
        let px = pos.x;
        let py = pos.y;
        let mut i: usize = 1;
        while i < nx - 2
            invariant
                1 <= i <= nx - 2,
                self.fluid.wf(),
                self.obstacle_pos == pos,
                self.gravity == old(self).gravity,
                self.dt == old(self).dt,
                self.num_iters == old(self).num_iters,
                self.frame_nr == old(self).frame_nr,
                self.over_relaxation == old(self).over_relaxation,
                self.obstacle_radius == old(self).obstacle_radius,
                self.show_streamlines == old(self).show_streamlines,
                self.show_velocities == old(self).show_velocities,
                self.show_pressure == old(self).show_pressure,
                self.show_smoke == old(self).show_smoke,
                self.show_smoke_gradient == old(self).show_smoke_gradient,
                self.scale == old(self).scale,
                self.width == old(self).width,
                self.height == old(self).height,
                self.scene_type == old(self).scene_type,
                self.fluid.num_x == old(self).fluid.num_x,
                self.fluid.num_y == old(self).fluid.num_y,
                self.fluid.num_cells == old(self).fluid.num_cells,
                self.fluid.h == old(self).fluid.h,
                self.fluid.density == old(self).fluid.density,
                self.fluid.p@ == m0.p,
                self.fluid.new_u@ == old(self).fluid.new_u@,
                self.fluid.new_v@ == old(self).fluid.new_v@,
                self.fluid.new_m@ == old(self).fluid.new_m@,
                self.fluid.s@.len() == m0.s.len(),
                self.fluid.m@.len() == m0.m.len(),
                self.fluid.u@.len() == m0.u.len(),
                self.fluid.v@.len() == m0.v.len(),
                forall|k: int|
                    0 <= k < m0.s.len() ==> #[trigger] self.fluid.s@[k] == obst_s_val(
                        m0,
                        px as int,
                        py as int,
                        r as int,
                        i as int,
                        1,
                        k,
                    ),
                forall|k: int|
                    0 <= k < m0.m.len() ==> #[trigger] self.fluid.m@[k] == obst_m_val(
                        m0,
                        px as int,
                        py as int,
                        r as int,
                        dye,
                        i as int,
                        1,
                        k,
                    ),
                forall|k: int|
                    0 <= k < m0.u.len() ==> #[trigger] self.fluid.u@[k] == obst_u_val(
                        m0,
                        px as int,
                        py as int,
                        r as int,
                        vx,
                        i as int,
                        1,
                        k,
                    ),
                forall|k: int|
                    0 <= k < m0.v.len() ==> #[trigger] self.fluid.v@[k] == obst_v_val(
                        m0,
                        px as int,
                        py as int,
                        r as int,
                        vy,
                        i as int,
                        1,
                        k,
                    ),
            decreases nx - 2 - i,
        {
            let mut j: usize = 1;
            while j < n - 2
                invariant
                    1 <= i < nx - 2,
                    1 <= j <= n - 2,
                    self.fluid.wf(),
                    self.obstacle_pos == pos,
                    self.gravity == old(self).gravity,
                    self.dt == old(self).dt,
                    self.num_iters == old(self).num_iters,
                    self.frame_nr == old(self).frame_nr,
                    self.over_relaxation == old(self).over_relaxation,
                    self.obstacle_radius == old(self).obstacle_radius,
                    self.show_streamlines == old(self).show_streamlines,
                    self.show_velocities == old(self).show_velocities,
                    self.show_pressure == old(self).show_pressure,
                    self.show_smoke == old(self).show_smoke,
                    self.show_smoke_gradient == old(self).show_smoke_gradient,
                    self.scale == old(self).scale,
                    self.width == old(self).width,
                    self.height == old(self).height,
                    self.scene_type == old(self).scene_type,
                    self.fluid.num_x == old(self).fluid.num_x,
                    self.fluid.num_y == old(self).fluid.num_y,
                    self.fluid.num_cells == old(self).fluid.num_cells,
                    self.fluid.h == old(self).fluid.h,
                    self.fluid.density == old(self).fluid.density,
                    self.fluid.p@ == m0.p,
                    self.fluid.new_u@ == old(self).fluid.new_u@,
                    self.fluid.new_v@ == old(self).fluid.new_v@,
                    self.fluid.new_m@ == old(self).fluid.new_m@,
                    self.fluid.s@.len() == m0.s.len(),
                    self.fluid.m@.len() == m0.m.len(),
                    self.fluid.u@.len() == m0.u.len(),
                    self.fluid.v@.len() == m0.v.len(),
                    forall|k: int|
                        0 <= k < m0.s.len() ==> #[trigger] self.fluid.s@[k] == obst_s_val(
                            m0,
                            px as int,
                            py as int,
                            r as int,
                            i as int,
                            j as int,
                            k,
                        ),
                    forall|k: int|
                        0 <= k < m0.m.len() ==> #[trigger] self.fluid.m@[k] == obst_m_val(
                            m0,
                            px as int,
                            py as int,
                            r as int,
                            dye,
                            i as int,
                            j as int,
                            k,
                        ),
                    forall|k: int|
                        0 <= k < m0.u.len() ==> #[trigger] self.fluid.u@[k] == obst_u_val(
                            m0,
                            px as int,
                            py as int,
                            r as int,
                            vx,
                            i as int,
                            j as int,
                            k,
                        ),
                    forall|k: int|
                        0 <= k < m0.v.len() ==> #[trigger] self.fluid.v@[k] == obst_v_val(
                            m0,
                            px as int,
                            py as int,
                            r as int,
                            vy,
                            i as int,
                            j as int,
                            k,
                        ),
                decreases n - 2 - j,
            {
                proof {
                    lemma_cell_index(i as int, j as int, nx as int, n as int);
                    lemma_cell_index(i as int + 1, j as int, nx as int, n as int);
                    lemma_cell_index(i as int, j as int + 1, nx as int, n as int);
                    assert((i as int + 1) * (n as int) == i as int * (n as int) + n as int)
                        by (nonlinear_arith);
                    assert forall|k: int|
                        0 <= k < m0.s.len() implies (k / (n as int)) * (n as int) + (#[trigger] (k
                        % (n as int))) == k by {
                        vstd::arithmetic::div_mod::lemma_fundamental_div_mod(k, n as int);
                        assert((n as int) * (k / (n as int)) == (k / (n as int)) * (n as int))
                            by (nonlinear_arith);
                    }
                    assert(0 <= i as int * (h as int) && i as int * (h as int) + h2 as int
                        <= nx as int * (h as int)) by (nonlinear_arith)
                        requires
                            0 <= i,
                            i + 1 <= nx,
                            0 <= h2 <= h,
                    ;
                    assert(0 <= j as int * (h as int) && j as int * (h as int) + h2 as int
                        <= n as int * (h as int)) by (nonlinear_arith)
                        requires
                            0 <= j,
                            j + 1 <= n,
                            0 <= h2 <= h,
                    ;
                }
                let c = i * n + j;
                self.fluid.s[c] = FP_ONE;
                let dx = (i as i64) * h + h2 - px;
                let dy = (j as i64) * h + h2 - py;
                proof {
                    lemma_range_product(dx as int, dx as int);
                    lemma_range_product(dy as int, dy as int);
                    assert(0 <= dx as int * dx as int && 0 <= dy as int * dy as int)
                        by (nonlinear_arith);
                }
                let dx2 = dx * dx;
                let dy2 = dy * dy;
                let hit = dy2 < r2 && dx2 < r2 - dy2;
                proof {
                    assert(hit == obst_hit(
                        h as int,
                        px as int,
                        py as int,
                        r as int,
                        i as int,
                        j as int,
                    ));
                }
                if hit {
                    self.fluid.s[c] = 0;
                    self.fluid.m[c] = dye;
                    self.fluid.u[c] = vx;
                    self.fluid.u[c + n] = vx;
                    self.fluid.v[c] = vy;
                    self.fluid.v[c + 1] = vy;
                }
                j = j + 1;
            }
            i = i + 1;
        }
        proof {
            assert(self.fluid.s@ =~= set_obstacle_m(
                m0,
                px as int,
                py as int,
                r as int,
                vx,
                vy,
                dye,
            ).s);
            assert(self.fluid.m@ =~= set_obstacle_m(
                m0,
                px as int,
                py as int,
                r as int,
                vx,
                vy,
                dye,
            ).m);
            assert(self.fluid.u@ =~= set_obstacle_m(
                m0,
                px as int,
                py as int,
                r as int,
                vx,
                vy,
                dye,
            ).u);
            assert(self.fluid.v@ =~= set_obstacle_m(
                m0,
                px as int,
                py as int,
                r as int,
                vx,
                vy,
                dye,
            ).v);
            assert(self.fluid.model() =~= set_obstacle_m(
                m0,
                px as int,
                py as int,
                r as int,
                vx,
                vy,
                dye,
            ));
        }
    }

}

} // verus!
