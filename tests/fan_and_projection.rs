use raycaster::fan::{ray_angle, ray_cast, FanRay, Pose, TURN};
use raycaster::grid::GridMap;
use raycaster::projector::{half_height, project_column, project_fan, slice_width, wall_style, Column, WallStyle};

const EAST: Dir = Dir { dx: 1, dy: 0 };
use raycaster::raycast::{calc_dist_to_wall, Dir, Point, WallHit, CELL};

fn walled(w: usize, h: usize) -> GridMap {
    let mut cells = vec![0u8; w * h];
    for r in 0..h {
        for c in 0..w {
            if r == 0 || c == 0 || r == h - 1 || c == w - 1 {
                cells[r * w + c] = 1;
            }
        }
    }
    GridMap::new(w, h, cells).unwrap()
}

fn ticks_to_radians(t: i64) -> f64 {
    t as f64 * 2.0 * std::f64::consts::PI / TURN as f64
}

fn radians_to_ticks(a: f64) -> i64 {
    (a * TURN as f64 / (2.0 * std::f64::consts::PI)).round() as i64
}

fn dir_of(ticks: i64) -> Dir {
    let a = ticks_to_radians(ticks);
    Dir { dx: (a.cos() * 65536.0).round() as i64, dy: (a.sin() * 65536.0).round() as i64 }
}

fn fan_dirs(heading: i64, fov: i64, rays: usize) -> Vec<Dir> {
    (0..rays).map(|i| dir_of(ray_angle(heading, fov, rays, i))).collect()
}

#[test]
fn fan_angles_follow_the_formula() {
    assert_eq!(ray_angle(5000, 1000, 4, 0), 4500);
    assert_eq!(ray_angle(5000, 1000, 4, 1), 4750);
    assert_eq!(ray_angle(5000, 1000, 4, 3), 5250);
    // quotients round down
    assert_eq!(ray_angle(100, 7, 3, 2), 100 - 3 + 4);
}

#[test]
fn fan_has_one_entry_per_ray() {
    let m = walled(6, 6);
    let pose = Pose { pos: Point { x: 3 * CELL, y: 2 * CELL + 77 }, heading: 1234 };
    let fov = 200000;
    let dirs = fan_dirs(pose.heading, fov, 17);
    let fan = ray_cast(&m, &pose, 17, fov, &dirs);
    assert_eq!(fan.len(), 17);
    for (i, ray) in fan.iter().enumerate() {
        assert_eq!(ray.index, i);
        assert_eq!(ray.angle, pose.heading - fov / 2 + (i as i64 * fov) / 17);
        assert_eq!(ray.hit, calc_dist_to_wall(&m, pose.pos, dirs[i]));
    }
}

#[test]
fn empty_fan_has_no_rays() {
    let m = walled(4, 4);
    let pose = Pose { pos: Point { x: 2 * CELL, y: 2 * CELL }, heading: 0 };
    assert!(ray_cast(&m, &pose, 0, 1000, &vec![]).is_empty());
}

#[test]
fn casting_twice_gives_identical_fans() {
    let m = walled(6, 6);
    let pose = Pose { pos: Point { x: 2 * CELL + 5, y: 4 * CELL - 9 }, heading: 700000 };
    let dirs = fan_dirs(pose.heading, 150000, 33);
    let first = ray_cast(&m, &pose, 33, 150000, &dirs);
    let second = ray_cast(&m, &pose, 33, 150000, &dirs);
    assert_eq!(first, second);
    assert_eq!(pose, Pose { pos: Point { x: 2 * CELL + 5, y: 4 * CELL - 9 }, heading: 700000 });
    assert_eq!(m.cell(0, 0), 1);
}

fn corridor_map() -> Vec<u8> {
    vec![
        1, 1, 1, 1, 1, 1, 1, 1,
        1, 1, 1, 1, 1, 1, 1, 1,
        1, 1, 1, 0, 0, 1, 1, 1,
        1, 1, 1, 0, 0, 1, 1, 1,
        1, 1, 1, 0, 0, 0, 1, 1,
        1, 1, 1, 0, 0, 0, 1, 1,
        1, 1, 1, 1, 0, 1, 1, 1,
        1, 1, 1, 1, 1, 1, 1, 1,
    ]
}

/// Entry distance of a ray into the box `[x0, x1] × [y0, y1]`, if it meets it.
fn slab(ox: f64, oy: f64, dx: f64, dy: f64, b: (f64, f64, f64, f64)) -> Option<f64> {
    let (x0, x1, y0, y1) = b;
    let (mut lo, mut hi) = (0.0f64, f64::INFINITY);
    for (o, d, a, z) in [(ox, dx, x0, x1), (oy, dy, y0, y1)] {
        if d == 0.0 {
            if o < a || o > z {
                return None;
            }
        } else {
            let (t1, t2) = ((a - o) / d, (z - o) / d);
            lo = lo.max(t1.min(t2));
            hi = hi.min(t1.max(t2));
        }
    }
    if lo <= hi { Some(lo) } else { None }
}

#[test]
fn corridor_scenario_matches_brute_force() {
    let cells = corridor_map();
    let m = GridMap::new(8, 8, cells.clone()).unwrap();
    // world [-1, 1] maps onto [0, 8·CELL]
    let to_units = |v: f64| ((v + 1.0) / 2.0 * 8.0 * CELL as f64).round() as i64;
    let pos = Point { x: to_units(0.35), y: to_units(0.2) };
    let heading = radians_to_ticks(1.0);
    let fov = radians_to_ticks(1.5);
    let pose = Pose { pos, heading };
    let dirs = fan_dirs(heading, fov, 60);
    let fan = ray_cast(&m, &pose, 60, fov, &dirs);
    assert_eq!(fan.len(), 60);
    let mut best = f64::INFINITY;
    let mut oracle_best = f64::INFINITY;
    for (i, ray) in fan.iter().enumerate() {
        let h = ray.hit.expect("finite distance");
        let (dx, dy) = (dirs[i].dx as f64, dirs[i].dy as f64);
        let len = (dx * dx + dy * dy).sqrt();
        let dist = h.t_num as f64 / h.t_den as f64 * len;
        // brute force: the nearest wall cell the ray enters
        let mut oracle = f64::INFINITY;
        for r in 0..8 {
            for c in 0..8 {
                if cells[r * 8 + c] == 0 {
                    continue;
                }
                let b = (
                    c as f64 * CELL as f64,
                    (c + 1) as f64 * CELL as f64,
                    r as f64 * CELL as f64,
                    (r + 1) as f64 * CELL as f64,
                );
                if let Some(t) = slab(pos.x as f64, pos.y as f64, dx, dy, b) {
                    oracle = oracle.min(t * len);
                }
            }
        }
        assert!((dist - oracle).abs() < 1e-6 * CELL as f64, "ray {}: {} vs {}", i, dist, oracle);
        best = best.min(dist);
        oracle_best = oracle_best.min(oracle);
    }
    assert!((best - oracle_best).abs() < 1e-6 * CELL as f64);
}

#[test]
fn wall_styles_by_code() {
    assert_eq!(wall_style(0), WallStyle::Background);
    assert_eq!(wall_style(1), WallStyle::Primary);
    assert_eq!(wall_style(2), WallStyle::AccentA);
    assert_eq!(wall_style(3), WallStyle::AccentB);
    assert_eq!(wall_style(9), WallStyle::Background);
}

#[test]
fn horizontal_hit_from_below_is_mirrored_and_shaded() {
    let h = WallHit { horz: true, code: 1, t_num: 98304, t_den: 2, x_num: 294912, y_num: 393216 };
    let c = project_column(Some(h), Dir { dx: 1, dy: 2 }, EAST, 0, 10, 10 * CELL).unwrap();
    assert_eq!(
        c,
        Column {
            column: 9,
            style: WallStyle::Primary,
            shade_percent: 80,
            tex_offset: 49152,
            depth_num: 98304,
            depth_den: 2,
            hit: h
        }
    );
    let down = project_column(Some(h), Dir { dx: 1, dy: -2 }, EAST, 3, 10, 10 * CELL).unwrap();
    assert_eq!(down.tex_offset, 16384);
    assert_eq!(down.column, 6);
}

#[test]
fn vertical_hit_from_the_right_is_mirrored() {
    let h = WallHit { horz: false, code: 3, t_num: 5, t_den: 1, x_num: 65536, y_num: 70000 };
    let left = project_column(Some(h), Dir { dx: -1, dy: 0 }, EAST, 2, 4, 10 * CELL).unwrap();
    assert_eq!(left.tex_offset, CELL - (70000 - 65536));
    assert_eq!(left.shade_percent, 100);
    assert_eq!(left.style, WallStyle::AccentB);
    assert_eq!(left.column, 1);
    let right = project_column(Some(h), Dir { dx: 1, dy: 0 }, EAST, 2, 4, 10 * CELL).unwrap();
    assert_eq!(right.tex_offset, 70000 - 65536);
}

#[test]
fn hidden_columns_are_skipped() {
    let h = WallHit { horz: false, code: 1, t_num: 300, t_den: 2, x_num: 0, y_num: 0 };
    assert_eq!(project_column(None, EAST, EAST, 0, 4, 1000), None);
    assert_eq!(project_column(Some(WallHit { code: 0, ..h }), EAST, EAST, 0, 4, 1000), None);
    assert_eq!(project_column(Some(h), EAST, EAST, 0, 4, 149), None);
    assert!(project_column(Some(h), EAST, EAST, 0, 4, 150).is_some());
}

#[test]
fn fan_projection_mirrors_columns() {
    let m = walled(5, 5);
    let pose = Pose { pos: Point { x: 5 * CELL / 2, y: 5 * CELL / 2 }, heading: 0 };
    let dirs = fan_dirs(0, 100000, 8);
    let fan: Vec<FanRay> = ray_cast(&m, &pose, 8, 100000, &dirs);
    let cols = project_fan(&fan, &dirs, dir_of(0), 100 * CELL);
    assert_eq!(cols.len(), 8);
    for (i, c) in cols.iter().enumerate() {
        let c = c.expect("every ray sees a wall");
        assert_eq!(c.column, 7 - i);
        assert_eq!(c.hit, fan[i].hit.unwrap());
    }
}

#[test]
fn fish_eye_depth_is_the_projection_on_the_view() {
    // ray (3, 4) against a view along +x: cos = 3/5
    let h = WallHit { horz: false, code: 1, t_num: 10, t_den: 1, x_num: 30, y_num: 40 };
    let c = project_column(Some(h), Dir { dx: 3, dy: 4 }, Dir { dx: 2, dy: 0 }, 0, 1, 100).unwrap();
    // depth 10·(3·2)/(2·2) = 15 view lengths of 2: 30 world units; raw is 10·5 = 50
    assert_eq!((c.depth_num, c.depth_den), (60, 4));
    let corrected = c.depth_num as f64 / c.depth_den as f64 * 2.0;
    let raw = 10.0 * 5.0;
    assert!(corrected <= raw);
    assert_eq!(corrected, 30.0);
}

#[test]
fn nearer_walls_are_drawn_taller() {
    let near = WallHit { horz: false, code: 1, t_num: 3, t_den: 2, x_num: 0, y_num: 0 };
    let far = WallHit { t_num: 5, ..near };
    let a = project_column(Some(near), EAST, EAST, 0, 2, 100).unwrap();
    let b = project_column(Some(far), EAST, EAST, 1, 2, 100).unwrap();
    let half_a = a.depth_den as f64 / a.depth_num as f64;
    let half_b = b.depth_den as f64 / b.depth_num as f64;
    assert!(half_a > half_b);
    assert_eq!(half_a, 2.0 / 3.0);
    // straight ahead no correction applies
    assert_eq!((b.depth_num, b.depth_den), (5, 2));
}

#[test]
fn half_height_and_slice_width_follow_the_depth() {
    assert_eq!(half_height(60, 4), (4, 60));
    // sin = 1/2, depth 15/1: half of 15 cells
    assert_eq!(slice_width(15, 1, 1, 2), (15, 2));
    assert_eq!(slice_width(-3, 7, 5, 9), (-15, 63));
}
