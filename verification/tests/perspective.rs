use raycaster::camera::{CameraState, InputIntent};
use raycaster::caster::Point2D;
use raycaster::fixed::ONE;
use raycaster::grid::GridMap;
use raycaster::perspective::{
    column_angle_of, column_offset_of, distance, project_slab, render_perspective, Slab,
    RENDER_DISTANCE,
};

fn hall() -> GridMap {
    let mut rows: Vec<Vec<usize>> = vec![
        vec![1, 1, 1, 1, 1, 1, 1, 1, 1, 1, 1, 1, 1, 1, 1, 1, 1, 1, 1, 1],
        vec![1, 0, 0, 0, 0, 2, 0, 0, 0, 1, 0, 0, 0, 0, 0, 0, 3, 3, 3, 3],
        vec![1, 0, 0, 0, 0, 2, 0, 0, 0, 1, 0, 0, 0, 0, 0, 0, 3, 3, 3, 3],
        vec![1, 0, 0, 0, 0, 2, 2, 0, 3, 3, 0, 0, 0, 0, 0, 0, 3, 3, 3, 3],
        vec![1, 0, 0, 0, 0, 0, 0, 0, 0, 0, 0, 0, 0, 0, 0, 0, 3, 3, 3, 3],
    ];
    for _ in 0..11 {
        let mut row = vec![0; 20];
        row[0] = 1;
        row[19] = 1;
        rows.push(row);
    }
    rows.push(vec![1, 1, 1, 1, 1, 1, 1, 1, 1, 1, 4, 4, 4, 4, 4, 4, 4, 4, 4, 4]);
    GridMap::new(rows, 20, 17).unwrap()
}

fn viewer(x: i64, y: i64, facing: i64, fov: i64) -> CameraState {
    CameraState {
        position: Point2D { x, y },
        facing,
        fov,
        intent: InputIntent { rotation: 0, forward: 0, strafe: 0 },
    }
}

#[test]
fn render_distance_is_seventeen_tiles() {
    assert_eq!(RENDER_DISTANCE, 17 * ONE);
}

#[test]
fn wall_at_one_tile_fills_the_column() {
    assert_eq!(project_slab(640, ONE as u64, 2), Slab { top: 0, bottom: 640, material: 2 });
    assert_eq!(project_slab(1, ONE as u64, 2), Slab { top: 0, bottom: 1, material: 2 });
    assert_eq!(project_slab(0, ONE as u64, 2), Slab { top: 0, bottom: 0, material: 2 });
    assert_eq!(
        project_slab(u32::MAX, ONE as u64, 9),
        Slab { top: 0, bottom: u32::MAX, material: 9 }
    );
}

#[test]
fn rendered_column_at_one_tile_is_full_height() {
    let cam = viewer(18 * ONE, 8 * ONE + ONE / 2, 0, 75 * ONE);
    let slabs = render_perspective(&cam, &hall(), 2, 640);
    assert_eq!(slabs.len(), 2);
    assert_eq!(slabs[1], Some(Slab { top: 0, bottom: 640, material: 1 }));
}

#[test]
fn slab_shrinks_with_distance() {
    let expected: [(u64, u32); 9] = [
        (0, 0),
        (1, 0),
        (32768, 0),
        (65536, 0),
        (131072, 0),
        (131073, 1),
        (688128, 260),
        (1114112, 283),
        (65536000, 320),
    ];
    for (d, top) in expected {
        assert_eq!(project_slab(640, d, 1), Slab { top, bottom: 640 - top, material: 1 });
    }
    assert_eq!(project_slab(641, 4 * ONE as u64, 3), Slab { top: 160, bottom: 481, material: 3 });
}

#[test]
fn slab_height_is_surface_height_over_distance() {
    for tenths in 21..170i64 {
        let d = tenths * ONE / 10;
        let slab = project_slab(640, d as u64, 1);
        let tall = (640.0 / (d as f64 / ONE as f64)).floor() as u32;
        assert_eq!(slab.top, 320 - tall);
        assert_eq!(slab.bottom, 640 - slab.top);
    }
}

#[test]
fn distance_is_the_rounded_down_length() {
    let a = Point2D { x: 0, y: 0 };
    assert_eq!(distance(a, Point2D { x: 3 * ONE, y: 4 * ONE }), 5 * ONE as u64);
    assert_eq!(distance(Point2D { x: 3 * ONE, y: 4 * ONE }, a), 5 * ONE as u64);
    assert_eq!(distance(a, a), 0);
    assert_eq!(distance(a, Point2D { x: 1, y: 1 }), 1);
    assert_eq!(distance(a, Point2D { x: -ONE, y: ONE }), 92681);
    assert_eq!(distance(Point2D { x: 557056, y: 557056 }, Point2D { x: 1245184, y: 557056 }), 688128);
}

#[test]
fn column_offsets_span_the_field_of_view() {
    assert_eq!(column_offset_of(75 * ONE, 0, 900), (-(75 * ONE) / 2) as i128);
    assert_eq!(column_offset_of(75 * ONE, 450, 900), 0);
    assert_eq!(column_offset_of(75 * ONE, 451, 900), 5461);
    assert_eq!(column_offset_of(75 * ONE, 899, 900), 2452138);
    assert_eq!(column_offset_of(90 * ONE, 0, 4), (-45 * ONE) as i128);
    assert_eq!(column_offset_of(90 * ONE, 3, 4), (45 * ONE / 2) as i128);
    assert_eq!(column_offset_of(i64::MIN, 0, 1), (1i128 << 62));
}

#[test]
fn column_angles_are_normalized() {
    let cam = viewer(0, 0, 0, 75 * ONE);
    assert_eq!(column_angle_of(&cam, 0, 900), 21135360);
    assert_eq!(column_angle_of(&cam, 1, 900), 21140821);
    assert_eq!(column_angle_of(&cam, 450, 900), 0);
    assert_eq!(column_angle_of(&cam, 451, 900), 5461);
    assert_eq!(column_angle_of(&cam, 899, 900), 2452138);
    let turned = viewer(0, 0, 350 * ONE, 75 * ONE);
    assert_eq!(column_angle_of(&turned, 899, 900), 2452138 - 10 * ONE);
    let wild = viewer(0, 0, i64::MAX, i64::MAX);
    let angle = column_angle_of(&wild, 3, 7);
    assert!(0 <= angle && angle < 360 * ONE);
}

#[test]
fn render_perspective_gives_one_entry_per_column() {
    let cam = viewer(557056, 557056, 0, 75 * ONE);
    let map = hall();
    assert_eq!(render_perspective(&cam, &map, 0, 640).len(), 0);
    assert_eq!(render_perspective(&cam, &map, 1, 640).len(), 1);
    let slabs = render_perspective(&cam, &map, 900, 640);
    assert_eq!(slabs.len(), 900);
    let expected: [(usize, u32, u32, usize); 8] = [
        (0, 253, 387, 3),
        (1, 253, 387, 3),
        (225, 262, 378, 3),
        (449, 260, 380, 1),
        (450, 260, 380, 1),
        (451, 260, 380, 1),
        (675, 263, 377, 1),
        (899, 269, 371, 4),
    ];
    for (i, top, bottom, material) in expected {
        assert_eq!(slabs[i], Some(Slab { top, bottom, material }), "column {}", i);
    }
}

#[test]
fn column_without_a_wall_shows_nothing() {
    let open = GridMap::new(vec![vec![0; 30]; 30], 30, 30).unwrap();
    let cam = viewer(15 * ONE, 15 * ONE, 40 * ONE, 75 * ONE);
    let slabs = render_perspective(&cam, &open, 64, 48);
    assert_eq!(slabs.len(), 64);
    assert!(slabs.iter().all(|s| s.is_none()));
}

#[test]
fn slabs_use_the_straight_line_distance() {
    let cam = viewer(557056, 557056, 0, 75 * ONE);
    let slabs = render_perspective(&cam, &hall(), 900, 640);
    let angle = (1228800.0f64 / ONE as f64).to_radians();
    let straight = 10.5 / angle.cos();
    let top = 320 - (640.0 / straight).floor() as u32;
    let side = slabs[675].unwrap();
    assert_eq!(side.material, 1);
    assert!(side.top == top || side.top == top + 1 || side.top + 1 == top);
    assert!(side.top > slabs[450].unwrap().top);
}
