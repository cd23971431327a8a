use eulerian_fluid::fixed::{FP_ONE, FP_SAT};
use eulerian_fluid::scene::{
    FluidScene, FxVec2, SceneType, GRAVITY, NUMBER_ITERATIONS, OBSTACLE_RADIUS, PAINT_DYE,
    PAINT_RADIUS, TIMESTEP, TIMESTEP_HIRES, VELOCITY_IN,
};

const WIDTH: i64 = 1280 * FP_ONE;
const HEIGHT: i64 = 720 * FP_ONE;

#[test]
fn tank_preset_configuration() {
    let scene = FluidScene::new(WIDTH, HEIGHT, SceneType::Tank);
    assert_eq!(scene.scene_type, SceneType::Tank);
    assert_eq!(scene.fluid.h, FP_ONE / 50);
    assert_eq!(scene.fluid.num_y, 52);
    assert_eq!(scene.gravity, GRAVITY);
    assert_eq!(scene.dt, TIMESTEP);
    assert_eq!(scene.num_iters, NUMBER_ITERATIONS);
    assert!(scene.show_pressure);
    assert!(!scene.show_smoke);
    let n = scene.fluid.num_y;
    let nx = scene.fluid.num_x;
    for i in 0..nx {
        for j in 0..n {
            let expect_solid = i == 0 || i == nx - 1 || j == 0;
            let s = scene.fluid.s[i * n + j];
            assert_eq!(s == 0, expect_solid);
            assert!(s == 0 || s == FP_ONE);
        }
    }
}

#[test]
fn tunnel_preset_configuration() {
    let scene = FluidScene::new(WIDTH, HEIGHT, SceneType::WindTunnel);
    assert_eq!(scene.fluid.h, FP_ONE / 100);
    assert_eq!(scene.fluid.num_y, 102);
    assert_eq!(scene.gravity, 0);
    assert_eq!(scene.dt, TIMESTEP);
    assert!(scene.show_smoke);
    let n = scene.fluid.num_y;
    let nx = scene.fluid.num_x;
    for i in 0..nx {
        for j in 0..n {
            let expect_solid = i == 0 || j == 0 || j == n - 1;
            assert_eq!(scene.fluid.s[i * n + j] == 0, expect_solid);
        }
    }
    // inflow injected in the second column
    for j in 0..n {
        assert_eq!(scene.fluid.u[n + j], VELOCITY_IN);
    }
    // a clean pipe of a tenth of the height, centred, in the inlet column
    let min_j = n * 9 / 20;
    let max_j = n * 11 / 20;
    for j in 0..n {
        let expect_clean = min_j <= j && j < max_j;
        assert_eq!(scene.fluid.m[j] == 0, expect_clean, "pipe at row {}", j);
    }
}

#[test]
fn hires_tunnel_overrides() {
    let scene = FluidScene::new(WIDTH, HEIGHT, SceneType::HiresTunnel);
    assert_eq!(scene.dt, TIMESTEP_HIRES);
    assert_eq!(scene.num_iters, 100);
    assert!(scene.show_pressure);
    assert!(scene.show_smoke);
}

#[test]
fn paint_preset_configuration() {
    let scene = FluidScene::new(WIDTH, HEIGHT, SceneType::Paint);
    assert_eq!(scene.gravity, 0);
    assert_eq!(scene.over_relaxation, FP_ONE);
    assert_eq!(scene.obstacle_radius, PAINT_RADIUS);
    assert!(scene.show_smoke);
    assert!(scene.show_smoke_gradient);
    assert!(!scene.show_pressure);
}

#[test]
fn canvas_coordinates() {
    let scene = FluidScene::new(WIDTH, HEIGHT, SceneType::Tank);
    // x * scale, and height - y * scale
    assert_eq!(scene.c_x(FP_ONE / 2, 100 * FP_ONE), 50 * FP_ONE);
    assert_eq!(scene.c_y(FP_ONE / 2, 80 * FP_ONE, 100 * FP_ONE), 30 * FP_ONE);
}

#[test]
fn obstacle_containment() {
    let mut scene = FluidScene::new(WIDTH, HEIGHT, SceneType::WindTunnel);
    let pos = FxVec2 { x: (7 * FP_ONE) / 10, y: FP_ONE / 2 };
    scene.set_obstacle(pos, true);
    assert_eq!(scene.obstacle_pos, pos);
    let n = scene.fluid.num_y;
    let nx = scene.fluid.num_x;
    let h = scene.fluid.h;
    let r = scene.obstacle_radius;
    assert_eq!(r, OBSTACLE_RADIUS);
    for i in 1..nx - 2 {
        for j in 1..n - 2 {
            let dx = (i as i64) * h + h / 2 - pos.x;
            let dy = (j as i64) * h + h / 2 - pos.y;
            let inside = dx * dx + dy * dy < r * r;
            let s = scene.fluid.s[i * n + j];
            if inside {
                assert_eq!(s, 0, "cell ({}, {}) inside the circle", i, j);
            } else {
                assert_eq!(s, FP_ONE, "cell ({}, {}) outside the circle", i, j);
            }
        }
    }
}

#[test]
fn obstacle_outside_margin_is_ignored() {
    let mut scene = FluidScene::new(WIDTH, HEIGHT, SceneType::WindTunnel);
    let s_before = scene.fluid.s.clone();
    let pos_before = scene.obstacle_pos;
    // x below the 0.2 margin
    scene.set_obstacle(FxVec2 { x: FP_ONE / 10, y: FP_ONE / 2 }, true);
    assert_eq!(scene.fluid.s, s_before);
    assert_eq!(scene.obstacle_pos, pos_before);
}

#[test]
fn obstacle_drag_imparts_velocity() {
    let mut scene = FluidScene::new(WIDTH, HEIGHT, SceneType::WindTunnel);
    scene.set_obstacle(FxVec2 { x: (6 * FP_ONE) / 10, y: FP_ONE / 2 }, true);
    // drag to the right by 0.01 in one timestep
    let target = FxVec2 { x: (6 * FP_ONE) / 10 + FP_ONE / 100, y: FP_ONE / 2 };
    scene.set_obstacle(target, false);
    let n = scene.fluid.num_y;
    let h = scene.fluid.h;
    let r = scene.obstacle_radius;
    // expected imparted x-velocity: displacement / dt
    let vx = ((FP_ONE as i128 / 100) * FP_ONE as i128 / scene.dt as i128) as i64;
    assert!(vx > 0);
    // find a hit cell and check its faces carry the imparted velocity
    let mut found = false;
    for i in 1..scene.fluid.num_x - 2 {
        for j in 1..n - 2 {
            let dx = (i as i64) * h + h / 2 - target.x;
            let dy = (j as i64) * h + h / 2 - target.y;
            if dx * dx + dy * dy < r * r {
                assert_eq!(scene.fluid.u[i * n + j], vx);
                assert_eq!(scene.fluid.u[(i + 1) * n + j], vx);
                assert_eq!(scene.fluid.v[i * n + j], 0);
                assert_eq!(scene.fluid.v[i * n + j + 1], 0);
                found = true;
            }
        }
    }
    assert!(found);
}

#[test]
fn mask_stays_binary_through_a_step() {
    let mut scene = FluidScene::new(WIDTH, HEIGHT, SceneType::WindTunnel);
    scene.set_obstacle(FxVec2 { x: (7 * FP_ONE) / 10, y: FP_ONE / 2 }, true);
    scene.step(TIMESTEP);
    for k in 0..scene.fluid.num_cells {
        let s = scene.fluid.s[k];
        assert!(s == 0 || s == FP_ONE);
    }
}

#[test]
fn tank_step_builds_hydrostatic_pressure() {
    // a 6x6 tank-like grid built directly, one step with gravity
    let h = FP_ONE / 6;
    let mut fluid = eulerian_fluid::fluid::Fluid::new(1000 * FP_ONE, 6, 6, h);
    for i in 0..6 {
        for j in 0..6 {
            let solid = i == 0 || i == 5 || j == 0;
            fluid.s[i * 6 + j] = if solid { 0 } else { FP_ONE };
        }
    }
    let mut scene = FluidScene {
        gravity: -(981 * FP_ONE) / 100,
        dt: FP_ONE / 60,
        num_iters: 40,
        frame_nr: 0,
        over_relaxation: (19 * FP_ONE) / 10,
        obstacle_pos: FxVec2 { x: 0, y: 0 },
        obstacle_radius: OBSTACLE_RADIUS,
        show_streamlines: false,
        show_velocities: false,
        show_pressure: true,
        show_smoke: false,
        show_smoke_gradient: false,
        scale: HEIGHT,
        width: WIDTH,
        height: HEIGHT,
        fluid,
        scene_type: SceneType::Tank,
    };
    let g = ((-(981 * FP_ONE) / 100) as i128 * (FP_ONE / 60) as i128 / FP_ONE as i128) as i64;
    scene.step(FP_ONE / 60);
    assert_eq!(scene.frame_nr, 1);
    println!(
        "v mid {} v bottom {} p bottom {} p top {}",
        scene.fluid.v[3 * 6 + 3],
        scene.fluid.v[3 * 6 + 1],
        scene.fluid.p[3 * 6 + 1],
        scene.fluid.p[3 * 6 + 4]
    );
    // the projection opposes gravity in the closed tank: what is left of
    // the downward pull is well below one application of gravity
    assert!(scene.fluid.v[3 * 6 + 3].abs() < g.abs());
    // gravity turns into hydrostatic pressure: higher at the bottom
    assert!(scene.fluid.p[3 * 6 + 1] > scene.fluid.p[3 * 6 + 4]);
    // the face above the bottom wall is never pushed into the wall
    assert_eq!(scene.fluid.v[3 * 6 + 1], 0);
    // a fully solid corner keeps zero velocity
    assert_eq!(scene.fluid.v[0], 0);
}

#[test]
fn wind_tunnel_keeps_inflow_through_a_step() {
    let mut scene = FluidScene::new(WIDTH, HEIGHT, SceneType::WindTunnel);
    scene.step(TIMESTEP);
    let n = scene.fluid.num_y;
    // u in the inflow column of an otherwise empty tunnel stays close
    // to the injected velocity
    for j in (n / 4)..(3 * n / 4) {
        let u = scene.fluid.u[n + j];
        assert!(
            (u - VELOCITY_IN).abs() <= FP_ONE / 10,
            "inflow at row {} drifted to {}",
            j,
            u
        );
    }
}

#[test]
fn closed_box_conserves_smoke_approximately() {
    let mut scene = FluidScene::new(WIDTH, HEIGHT, SceneType::Tank);
    // zero inflow and zero gravity: a closed box at rest
    scene.gravity = 0;
    let total_before: i64 = scene.fluid.m.iter().sum();
    scene.step(TIMESTEP);
    let total_after: i64 = scene.fluid.m.iter().sum();
    let tolerance = scene.fluid.num_cells as i64;
    assert!((total_after - total_before).abs() <= tolerance);
}

#[test]
fn paint_obstacle_stamps_dye() {
    let mut scene = FluidScene::new(WIDTH, HEIGHT, SceneType::Paint);
    let pos = FxVec2 { x: FP_ONE / 2, y: FP_ONE / 2 };
    scene.set_obstacle(pos, true);
    let n = scene.fluid.num_y;
    let h = scene.fluid.h;
    let r = scene.obstacle_radius;
    let mut hits = 0usize;
    for i in 1..scene.fluid.num_x - 2 {
        for j in 1..n - 2 {
            let dx = (i as i64) * h + h / 2 - pos.x;
            let dy = (j as i64) * h + h / 2 - pos.y;
            if dx * dx + dy * dy < r * r {
                assert_eq!(scene.fluid.m[i * n + j], PAINT_DYE);
                hits += 1;
            } else {
                assert_eq!(scene.fluid.m[i * n + j], FP_ONE);
            }
        }
    }
    assert!(hits > 0);
}
