use raycaster::caster::{cast, cast_along, Point2D, RayHit, COORD_LIMIT, RANGE_LIMIT};
use raycaster::direction::{direction_of, RayDirection};
use raycaster::fixed::ONE;
use raycaster::grid::GridMap;

fn arena() -> GridMap {
    let rows: Vec<Vec<usize>> = vec![
        vec![1, 1, 1, 1, 1, 1, 1, 1, 1, 1, 1, 1, 1, 1, 1, 1, 1, 1, 1, 1],
        vec![1, 0, 0, 0, 0, 2, 0, 0, 0, 1, 0, 0, 0, 0, 0, 0, 3, 3, 3, 3],
        vec![1, 0, 0, 0, 0, 2, 0, 0, 0, 1, 0, 0, 0, 0, 0, 0, 3, 3, 3, 3],
        vec![1, 0, 0, 0, 0, 2, 2, 0, 3, 3, 0, 0, 0, 0, 0, 0, 3, 3, 3, 3],
        vec![1, 0, 0, 0, 0, 0, 0, 0, 0, 0, 0, 0, 0, 0, 0, 0, 3, 3, 3, 3],
        vec![1, 0, 0, 0, 0, 0, 0, 0, 0, 0, 0, 0, 0, 0, 0, 0, 0, 0, 0, 1],
        vec![1, 0, 0, 0, 0, 0, 0, 0, 0, 0, 0, 0, 0, 0, 0, 0, 0, 0, 0, 1],
        vec![1, 0, 0, 0, 0, 0, 0, 0, 0, 0, 0, 0, 0, 0, 0, 0, 0, 0, 0, 1],
        vec![1, 0, 0, 0, 0, 0, 0, 0, 0, 0, 0, 0, 0, 0, 0, 0, 0, 0, 0, 1],
        vec![1, 0, 0, 0, 0, 0, 0, 0, 0, 0, 0, 0, 0, 0, 0, 0, 0, 0, 0, 1],
        vec![1, 0, 0, 0, 0, 0, 0, 0, 0, 0, 0, 0, 0, 0, 0, 0, 0, 0, 0, 1],
        vec![1, 0, 0, 0, 0, 0, 0, 0, 0, 0, 0, 0, 0, 0, 0, 0, 0, 0, 0, 1],
        vec![1, 0, 0, 0, 0, 0, 0, 0, 0, 0, 0, 0, 0, 0, 0, 0, 0, 0, 0, 1],
        vec![1, 0, 0, 0, 0, 0, 0, 0, 0, 0, 0, 0, 0, 0, 0, 0, 0, 0, 0, 1],
        vec![1, 0, 0, 0, 0, 0, 0, 0, 0, 0, 0, 0, 0, 0, 0, 0, 0, 0, 0, 1],
        vec![1, 0, 0, 0, 0, 0, 0, 0, 0, 0, 0, 0, 0, 0, 0, 0, 0, 0, 0, 1],
        vec![1, 1, 1, 1, 1, 1, 1, 1, 1, 1, 4, 4, 4, 4, 4, 4, 4, 4, 4, 4],
    ];
    GridMap::new(rows, 20, 17).unwrap()
}

fn tiles(v: f64) -> i64 {
    (v * ONE as f64).round() as i64
}

fn as_tiles(v: i64) -> f64 {
    v as f64 / ONE as f64
}

fn distance(a: Point2D, b: Point2D) -> f64 {
    let dx = as_tiles(a.x) - as_tiles(b.x);
    let dy = as_tiles(a.y) - as_tiles(b.y);
    (dx * dx + dy * dy).sqrt()
}

#[test]
fn east_ray_hits_the_border_and_not_the_inner_wall() {
    let map = arena();
    let eye = Point2D { x: tiles(8.5), y: tiles(8.5) };
    let hit = cast(eye, 0, tiles(17.0), &map).unwrap();
    assert_eq!(hit, RayHit { position: Point2D { x: 19 * ONE, y: tiles(8.5) }, material: 1 });
    assert!((distance(eye, hit.position) - 10.5).abs() < 1e-9);
}

#[test]
fn east_ray_stops_short_of_the_border() {
    let map = arena();
    let eye = Point2D { x: tiles(8.5), y: tiles(8.5) };
    assert_eq!(cast(eye, 0, tiles(10.5) - 1, &map), None);
    assert!(cast(eye, 0, tiles(10.5), &map).is_some());
}

#[test]
fn quarter_turn_ray_steps_along_rows_only() {
    let map = arena();
    let eye = Point2D { x: tiles(8.5), y: tiles(8.5) };
    let d = direction_of(90 * ONE);
    assert_eq!(d.tan, None);
    assert_eq!(d.cot, Some(0));
    assert_eq!((d.dir_x, d.dir_y), (0, 0));
    let hit = cast_along(eye, &d, tiles(17.0), &map).unwrap();
    assert_eq!(hit, RayHit { position: Point2D { x: tiles(8.5), y: 16 * ONE }, material: 1 });
}

#[test]
fn negative_cutoff_counts_by_its_size() {
    let map = arena();
    let eye = Point2D { x: tiles(8.5), y: tiles(8.5) };
    assert_eq!(cast(eye, 0, -tiles(17.0), &map), cast(eye, 0, tiles(17.0), &map));
}

#[test]
fn direction_without_slopes_hits_nothing() {
    let map = arena();
    let eye = Point2D { x: tiles(8.5), y: tiles(8.5) };
    let d = RayDirection { dir_x: 0, dir_y: 0, tan: None, cot: None };
    assert_eq!(cast_along(eye, &d, tiles(17.0), &map), None);
}

fn reference_cast(origin: (f64, f64), degrees: f64, cutoff: f64, rows: &[Vec<usize>]) -> Option<(f64, f64, usize)> {
    let angle = degrees.to_radians();
    let h = rows.len() as f64;
    let w = rows[0].len() as f64;
    let (ox, oy) = origin;
    let half = std::f64::consts::FRAC_PI_2;
    let (dir_x, dir_y) = if angle > half && angle <= 2.0 * half {
        (-1.0, 0.0)
    } else if angle > 2.0 * half && angle <= 3.0 * half {
        (-1.0, -1.0)
    } else if angle > 3.0 * half && angle <= 4.0 * half {
        (0.0, -1.0)
    } else {
        (0.0, 0.0)
    };
    let tan = angle.tan();
    let cot = 1.0 / tan;
    let mut vx = (ox + dir_x).ceil();
    let mut vy = (vx - ox) * tan + oy;
    let mut hy = (oy + dir_y).ceil();
    let mut hx = (hy - oy) * cot + ox;
    let square = |x: f64, y: f64| (x - ox) * (x - ox) + (y - oy) * (y - oy);
    while square(vx, vy) <= cutoff * cutoff || square(hx, hy) <= cutoff * cutoff {
        if square(vx, vy) <= square(hx, hy) {
            if vy.floor() > 0.0 && vy.floor() < h && vx.floor() > 0.0 && vx.floor() < w {
                let m = rows[vy as usize][(vx + dir_x) as usize];
                if m != 0 {
                    return Some((vx, vy, m));
                }
            }
            if dir_x < 0.0 {
                vx -= 1.0;
                vy -= tan;
            } else {
                vx += 1.0;
                vy += tan;
            }
        } else {
            if hy.floor() > 0.0 && hy.floor() < h && hx.floor() > 0.0 && hx.floor() < w {
                let m = rows[(hy + dir_y) as usize][hx as usize];
                if m != 0 {
                    return Some((hx, hy, m));
                }
            }
            if dir_y < 0.0 {
                hx -= cot;
                hy -= 1.0;
            } else {
                hx += cot;
                hy += 1.0;
            }
        }
    }
    None
}

fn arena_rows() -> Vec<Vec<usize>> {
    let map = arena();
    let mut rows = Vec::new();
    for r in 0..map.height() {
        let mut row = Vec::new();
        for c in 0..map.width() {
            row.push(map.cell(c, r).unwrap());
        }
        rows.push(row);
    }
    rows
}

#[test]
fn slanted_rays_hit_exactly_where_expected() {
    let map = arena();
    let eye = Point2D { x: tiles(8.5), y: tiles(8.5) };
    let expected: [(i64, i64, i64, usize); 8] = [
        (30, 1245184, 954344, 1),
        (45, 1048576, 1048576, 4),
        (135, 65536, 1048576, 1),
        (200, 65536, 378159, 1),
        (225, 65536, 65536, 1),
        (270, 557056, 262144, 3),
        (300, 840833, 65536, 1),
        (359, 1245184, 545055, 1),
    ];
    for (deg, x, y, material) in expected {
        let hit = cast(eye, deg * ONE, tiles(17.0), &map);
        assert_eq!(hit, Some(RayHit { position: Point2D { x, y }, material }), "at {} degrees", deg);
    }
}

#[test]
fn axis_rays_hit_the_facing_wall_at_its_distance() {
    let map = arena();
    let eye = Point2D { x: tiles(8.25), y: tiles(8.75) };
    let east = cast(eye, 0, tiles(17.0), &map).unwrap();
    assert_eq!(east, RayHit { position: Point2D { x: 19 * ONE, y: tiles(8.75) }, material: 1 });
    assert!((distance(eye, east.position) - 10.75).abs() < 1e-9);
    let south = cast(eye, 90 * ONE, tiles(17.0), &map).unwrap();
    assert_eq!(south, RayHit { position: Point2D { x: tiles(8.25), y: 16 * ONE }, material: 1 });
    assert!((distance(eye, south.position) - 7.25).abs() < 1e-9);
    let west = cast(eye, 180 * ONE, tiles(17.0), &map).unwrap();
    assert_eq!(west, RayHit { position: Point2D { x: ONE, y: tiles(8.75) }, material: 1 });
    assert!((distance(eye, west.position) - 7.25).abs() < 1e-9);
    let north = cast(eye, 270 * ONE, tiles(17.0), &map).unwrap();
    assert_eq!(north, RayHit { position: Point2D { x: tiles(8.25), y: 4 * ONE }, material: 3 });
    assert!((distance(eye, north.position) - 4.75).abs() < 1e-9);
}

#[test]
fn axis_rays_miss_a_wall_beyond_the_cutoff() {
    let map = arena();
    let eye = Point2D { x: tiles(8.25), y: tiles(8.75) };
    assert_eq!(cast(eye, 0, tiles(10.75) - 1, &map), None);
    assert_eq!(cast(eye, 90 * ONE, tiles(7.25) - 1, &map), None);
    assert_eq!(cast(eye, 180 * ONE, tiles(7.25) - 1, &map), None);
    assert_eq!(cast(eye, 270 * ONE, tiles(4.75) - 1, &map), None);
    assert!(cast(eye, 270 * ONE, tiles(4.75), &map).is_some());
}

#[test]
fn rays_agree_with_the_floating_point_caster() {
    let map = arena();
    let rows = arena_rows();
    let eye = Point2D { x: tiles(8.5), y: tiles(8.5) };
    for tenth in 0..3600i64 {
        if tenth % 450 == 0 {
            continue;
        }
        let angle = tenth * ONE / 10;
        let fixed = cast(eye, angle, tiles(17.0), &map);
        let real = reference_cast((8.5, 8.5), as_tiles(angle), 17.0, &rows);
        match (fixed, real) {
            (Some(hit), Some((x, y, material))) => {
                assert_eq!(hit.material, material, "at {} tenths", tenth);
                assert!((as_tiles(hit.position.x) - x).abs() < 0.001, "at {} tenths", tenth);
                assert!((as_tiles(hit.position.y) - y).abs() < 0.001, "at {} tenths", tenth);
            }
            (None, None) => {}
            _ => panic!("at {} tenths: {:?} against {:?}", tenth, fixed, real),
        }
    }
}

#[test]
fn empty_grid_is_never_hit() {
    let map = GridMap::new(vec![vec![0; 12]; 9], 12, 9).unwrap();
    let eye = Point2D { x: tiles(6.5), y: tiles(4.5) };
    for deg in 0..360i64 {
        assert_eq!(cast(eye, deg * ONE, tiles(40.0), &map), None);
    }
}

#[test]
fn zero_cutoff_sees_only_what_lies_at_the_origin() {
    let map = arena();
    let eye = Point2D { x: tiles(8.5), y: tiles(8.5) };
    for deg in 0..360i64 {
        assert_eq!(cast(eye, deg * ONE, 0, &map), None);
    }
    let on_wall = Point2D { x: 19 * ONE, y: tiles(8.5) };
    assert_eq!(
        cast(on_wall, 0, 0, &map),
        Some(RayHit { position: on_wall, material: 1 })
    );
}

#[test]
fn casting_twice_gives_the_same_result() {
    let map = arena();
    let eye = Point2D { x: tiles(3.25), y: tiles(11.125) };
    for deg in 0..360i64 {
        let first = cast(eye, deg * ONE + 77, tiles(17.0), &map);
        let second = cast(eye, deg * ONE + 77, tiles(17.0), &map);
        assert_eq!(first, second);
    }
}

#[test]
fn first_row_and_column_are_not_looked_behind() {
    let map = GridMap::new(
        vec![vec![0, 0, 0, 0], vec![5, 0, 0, 6], vec![0, 0, 0, 0], vec![0, 7, 0, 0]],
        4,
        4,
    )
    .unwrap();
    let eye = Point2D { x: tiles(1.5), y: tiles(1.5) };
    assert_eq!(
        cast(eye, 0, tiles(10.0), &map),
        Some(RayHit { position: Point2D { x: 3 * ONE, y: tiles(1.5) }, material: 6 })
    );
    assert_eq!(
        cast(eye, 180 * ONE, tiles(10.0), &map),
        Some(RayHit { position: Point2D { x: ONE, y: tiles(1.5) }, material: 5 })
    );
    assert_eq!(
        cast(eye, 90 * ONE, tiles(10.0), &map),
        Some(RayHit { position: Point2D { x: tiles(1.5), y: 3 * ONE }, material: 7 })
    );
    let low = Point2D { x: tiles(1.5), y: tiles(0.5) };
    assert_eq!(cast(low, 0, tiles(10.0), &map), None);
    let left = Point2D { x: tiles(0.5), y: tiles(2.5) };
    assert_eq!(cast(left, 90 * ONE, tiles(10.0), &map), None);
}

#[test]
fn ray_from_a_grid_line_toward_smaller_x_skips_the_next_cell() {
    let map = GridMap::new(vec![vec![0; 6], vec![0, 0, 8, 9, 0, 0], vec![0; 6]], 6, 3).unwrap();
    let on_line = Point2D { x: 4 * ONE, y: tiles(1.5) };
    assert_eq!(
        cast(on_line, 180 * ONE, tiles(10.0), &map),
        Some(RayHit { position: Point2D { x: 3 * ONE, y: tiles(1.5) }, material: 8 })
    );
    let inside = Point2D { x: 4 * ONE + 1, y: tiles(1.5) };
    assert_eq!(
        cast(inside, 180 * ONE, tiles(10.0), &map),
        Some(RayHit { position: Point2D { x: 4 * ONE, y: tiles(1.5) }, material: 9 })
    );
}

#[test]
fn hits_lie_within_the_cutoff() {
    let map = arena();
    let eye = Point2D { x: tiles(8.5), y: tiles(8.5) };
    for deg in 0..360i64 {
        for cutoff in [tiles(3.0), tiles(8.0), tiles(12.0)] {
            if let Some(hit) = cast(eye, deg * ONE, cutoff, &map) {
                assert!(distance(eye, hit.position) <= as_tiles(cutoff) + 1e-9);
                assert!(hit.material != 0);
            }
        }
    }
}

#[test]
fn limits_are_told_apart() {
    assert!(Point2D { x: COORD_LIMIT, y: -COORD_LIMIT }.is_in_limits());
    assert!(!Point2D { x: COORD_LIMIT + 1, y: 0 }.is_in_limits());
    assert!(!Point2D { x: 0, y: -COORD_LIMIT - 1 }.is_in_limits());
}

#[test]
fn rays_from_the_limits_end() {
    let map = arena();
    let far = Point2D { x: COORD_LIMIT, y: -COORD_LIMIT };
    assert_eq!(cast(far, 135 * ONE, tiles(100.0), &map), None);
    let eye = Point2D { x: tiles(8.5), y: tiles(8.5) };
    assert!(cast(eye, 0, RANGE_LIMIT, &map).is_some());
    let open = GridMap::new(vec![vec![0; 3]; 3], 3, 3).unwrap();
    assert_eq!(cast(eye, 90 * ONE, tiles(5000.0), &open), None);
}
