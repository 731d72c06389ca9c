//! The perspective view: one vertical slab of wall per screen column.

use vstd::prelude::*;
use crate::camera::CameraState;
use crate::caster::cast;
use crate::caster::distance_squared;
use crate::caster::lemma_hit_lies_close;
use crate::caster::nearest_hit;
use crate::caster::Point2D;
use crate::caster::COORD_LIMIT;
use crate::direction::direction_at;
use crate::fixed::div_floor;
use crate::fixed::is_integer_sqrt;
use crate::fixed::isqrt;
use crate::fixed::rem_floor;
use crate::fixed::sqrt_floor;
use crate::fixed::ONE;
use crate::grid::GridMap;
use crate::trig::normalize_angle;
use crate::trig::FULL_TURN;

verus! {

/// How far the perspective view looks: 17 tiles.
pub const RENDER_DISTANCE: i64 = 1114112;

/// The span of a screen column that a wall covers, from row `top` to row
/// `bottom`, and the material of that wall.
#[derive(Clone, Copy, Debug, PartialEq, Eq, Structural)]
pub struct Slab {
    pub top: u32,
    pub bottom: u32,
    pub material: usize,
}

/// The angle between the camera's facing and the ray of a column: from
/// minus half the field of view at the left edge up to, but not reaching,
/// half the field of view at the right edge; rounded down.
pub open spec fn column_offset(fov: int, column: int, width: int) -> int {
    (fov * (2 * column - width)) / (2 * width)
}

/// The angle of the ray of a column, in `0..FULL_TURN`.
pub open spec fn column_angle(camera: CameraState, column: int, width: int) -> int {
    normalize_angle(camera.facing + column_offset(camera.fov as int, column, width))
}

/// The distance between two points, rounded down.
pub open spec fn distance_between(a: Point2D, b: Point2D) -> int {
    sqrt_floor(distance_squared(a, b))
}

/// The top row of the slab of a wall at `distance` on a surface `height`
/// rows high. The wall appears `height / distance` rows tall, rounded down,
/// and as tall as can be at distance zero; the slab starts that many rows
/// above the middle of the surface, or at row 0 where that would lie above
/// the surface.
pub open spec fn slab_top(height: int, distance: int) -> int {
    if distance <= 0 {
        0
    } else {
        let tall = (height * ONE) / distance;
        if tall >= height / 2 {
            0
        } else {
            height / 2 - tall
        }
    }
}

/// The slab of a wall of `material` at `distance`: it ends as far above the
/// lower edge of the surface as it starts below the upper edge.
pub open spec fn slab_for(height: u32, distance: int, material: usize) -> Slab {
    Slab {
        top: slab_top(height as int, distance) as u32,
        bottom: (height - slab_top(height as int, distance)) as u32,
        material,
    }
}

/// What a column of the perspective view shows: the slab of the wall that
/// its ray hits within `RENDER_DISTANCE`, at the straight-line distance of
/// the hit, or nothing where the ray hits no wall.
pub open spec fn column_slab(
    camera: CameraState,
    map: &GridMap,
    width: u32,
    height: u32,
    column: int,
) -> Option<Slab> {
    match nearest_hit(
        camera.position,
        direction_at(column_angle(camera, column, width as int)),
        RENDER_DISTANCE as int,
        map,
    ) {
        Some(hit) => Some(
            slab_for(height, distance_between(camera.position, hit.position), hit.material),
        ),
        None => None,
    }
}

/// The slab starts in the upper half of the surface.
pub proof fn lemma_slab_top_range(height: int, distance: int)
    requires
        0 <= height,
    ensures
        0 <= slab_top(height, distance) <= height / 2,
{
    if distance > 0 {
        vstd::arithmetic::div_mod::lemma_div_pos_is_pos(height * ONE, distance);
    }
}

/// A wall one tile away fills its column from top to bottom.
pub proof fn lemma_wall_at_one_tile_fills_column(height: u32, material: usize)
    ensures
        slab_for(height, ONE as int, material) == (Slab { top: 0, bottom: height, material }),
{
}

/// Computes the angle between the camera's facing and the ray of a column.
pub fn column_offset_of(fov: i64, column: u32, width: u32) -> (offset: i128)
    requires
        column < width,
    ensures
        offset == column_offset(fov as int, column as int, width as int),
        -0x8000_0000_0000_0000_0000_0000 <= offset <= 0x8000_0000_0000_0000_0000_0000,
{
    let span: i128 = 2 * (column as i128) - (width as i128);
    assert(-0x8000_0000_0000_0000_0000_0000 <= fov * span <= 0x8000_0000_0000_0000_0000_0000)
        by (nonlinear_arith)
        requires
            -0x8000_0000_0000_0000 <= fov <= 0x7fff_ffff_ffff_ffff,
            -0x1_0000_0000 <= span <= 0x1_0000_0000,
    ;
    let turned: i128 = (fov as i128) * span;
    proof {
        let w2 = 2 * (width as int);
        vstd::arithmetic::div_mod::lemma_div_is_ordered(
            -0x8000_0000_0000_0000_0000_0000,
            turned as int,
            w2,
        );
        vstd::arithmetic::div_mod::lemma_div_is_ordered(
            turned as int,
            0x8000_0000_0000_0000_0000_0000,
            w2,
        );
        vstd::arithmetic::div_mod::lemma_div_is_ordered(
            -0x8000_0000_0000_0000_0000_0000 * w2,
            -0x8000_0000_0000_0000_0000_0000,
            w2,
        );
        vstd::arithmetic::div_mod::lemma_div_is_ordered(
            0x8000_0000_0000_0000_0000_0000,
            0x8000_0000_0000_0000_0000_0000 * w2,
            w2,
        );
        vstd::arithmetic::div_mod::lemma_div_multiples_vanish(
            -0x8000_0000_0000_0000_0000_0000,
            w2,
        );
        vstd::arithmetic::div_mod::lemma_div_multiples_vanish(0x8000_0000_0000_0000_0000_0000, w2);
        assert(w2 * 0x8000_0000_0000_0000_0000_0000 == 0x8000_0000_0000_0000_0000_0000 * w2);
        assert(w2 * -0x8000_0000_0000_0000_0000_0000 == -0x8000_0000_0000_0000_0000_0000 * w2);
    }
    div_floor(turned, 2 * (width as i128))
}

/// Computes the angle of the ray of a column.
pub fn column_angle_of(camera: &CameraState, column: u32, width: u32) -> (angle: i64)
    requires
        column < width,
    ensures
        angle == column_angle(*camera, column as int, width as int),
        0 <= angle < FULL_TURN,
{
    let offset: i128 = column_offset_of(camera.fov, column, width);
    rem_floor(camera.facing as i128 + offset, FULL_TURN as i128) as i64
}

/// Computes the distance between two points, rounded down. The points may
/// lie up to twice `COORD_LIMIT` from the axes.
pub fn distance(a: Point2D, b: Point2D) -> (r: u64)
    requires
        -2 * COORD_LIMIT <= a.x <= 2 * COORD_LIMIT,
        -2 * COORD_LIMIT <= a.y <= 2 * COORD_LIMIT,
        -2 * COORD_LIMIT <= b.x <= 2 * COORD_LIMIT,
        -2 * COORD_LIMIT <= b.y <= 2 * COORD_LIMIT,
    ensures
        r == distance_between(a, b),
        is_integer_sqrt(distance_squared(a, b), r as int),
{
    let dx: i128 = b.x as i128 - a.x as i128;
    let dy: i128 = b.y as i128 - a.y as i128;
    assert(0 <= dx * dx <= 0x1_0000_0000_0000_0000_0000_0000_0000) by (nonlinear_arith)
        requires
            -0x4_0000_0000_0000 <= dx <= 0x4_0000_0000_0000,
    ;
    assert(0 <= dy * dy <= 0x1_0000_0000_0000_0000_0000_0000_0000) by (nonlinear_arith)
        requires
            -0x4_0000_0000_0000 <= dy <= 0x4_0000_0000_0000,
    ;
    let sum: u128 = (dx * dx + dy * dy) as u128;
    isqrt(sum)
}

/// Computes the slab of a wall of `material` at `distance` on a surface
/// `height` rows high.
pub fn project_slab(height: u32, distance: u64, material: usize) -> (slab: Slab)
    ensures
        slab == slab_for(height, distance as int, material),
        slab.top <= height / 2,
        slab.bottom == height - slab.top,
{
    proof {
        lemma_slab_top_range(height as int, distance as int);
    }
    let top: u32 = if distance == 0 {
        0
    } else {
        let tall: i128 = div_floor((height as i128) * (ONE as i128), distance as i128);
        if tall >= (height / 2) as i128 {
            0
        } else {
            proof {
                vstd::arithmetic::div_mod::lemma_div_pos_is_pos(height * ONE, distance as int);
            }
            height / 2 - tall as u32
        }
    };
    Slab { top, bottom: height - top, material }
}

/// Renders the perspective view of `map` from `camera` on a surface of
/// `width` columns and `height` rows: for each column, the slab to draw or
/// `None` where the column shows no wall.
pub fn render_perspective(camera: &CameraState, map: &GridMap, width: u32, height: u32) -> (slabs:
    Vec<Option<Slab>>)
    requires
        camera.position.in_limits(),
    ensures
        slabs@.len() == width,
        forall|i: int|
            0 <= i < width ==> slabs@[i] == #[trigger] column_slab(*camera, map, width, height, i),
{
    let mut slabs: Vec<Option<Slab>> = Vec::new();
    let mut column: u32 = 0;
    while column < width
        invariant
            column <= width,
            camera.position.in_limits(),
            slabs@.len() == column,
            forall|i: int|
                0 <= i < column ==> slabs@[i] == #[trigger] column_slab(
                    *camera,
                    map,
                    width,
                    height,
                    i,
                ),
        decreases width - column,
    {
        let angle: i64 = column_angle_of(camera, column, width);
        let slab: Option<Slab> = match cast(camera.position, angle, RENDER_DISTANCE, map) {
            Some(hit) => {
                proof {
                    lemma_hit_lies_close(camera.position, hit.position, RENDER_DISTANCE as int);
                }
                Some(project_slab(height, distance(camera.position, hit.position), hit.material))
            },
            None => None,
        };
        slabs.push(slab);
        column += 1;
    }
    slabs
}

} // verus!
