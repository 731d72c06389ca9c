//! The plan view: the grid seen from above, with one ray per screen column.
//!
//! A ray that hits a wall ends there. One that hits nothing is followed
//! further the more it is turned away from the camera's facing, so that all
//! such rays end at the same depth ahead of the camera: `lemma_plan_depth`.

use vstd::prelude::*;
use crate::camera::CameraState;
use crate::caster::cast;
use crate::caster::lemma_hit_lies_close;
use crate::caster::nearest_hit;
use crate::caster::Point2D;
use crate::direction::direction_at;
use crate::fixed::clamp;
use crate::fixed::div_floor;
use crate::fixed::magnitude;
use crate::fixed::rem_floor;
use crate::grid::GridMap;
use crate::perspective::column_angle;
use crate::perspective::column_angle_of;
use crate::perspective::column_offset;
use crate::perspective::column_offset_of;
use crate::trig::cosine;
use crate::trig::lemma_normalize_keeps_direction;
use crate::trig::lemma_unit_circle;
use crate::trig::sin_cos;
use crate::trig::sine;
use crate::trig::FULL_TURN;
use crate::trig::TRIG_LIMIT;
use crate::trig::TRIG_ONE;
use crate::trig::UNIT_SLACK;

verus! {

/// How far the plan view looks straight ahead: 20 tiles.
pub const PLAN_DISTANCE: i64 = 1310720;

/// The longest reach of a ray of the plan view: that of a ray whose cosine
/// against the camera's facing is one part in 65536.
pub const PLAN_REACH_LIMIT: i64 = 85899345920;

/// The material that marks a ray of the plan view that hit no wall.
pub const NO_HIT_MATERIAL: usize = 4;

/// A filled cell as the plan view shows it: a rectangle of the surface, in
/// pixels, and the material of the cell.
#[derive(Clone, Copy, Debug, PartialEq, Eq, Structural)]
pub struct CellRect {
    pub x: u32,
    pub y: u32,
    pub width: u32,
    pub height: u32,
    pub material: usize,
}

/// A ray as the plan view shows it: the point of the surface where it ends,
/// in fixed-point pixels, and the material of the wall it hit, or
/// `NO_HIT_MATERIAL`.
#[derive(Clone, Copy, Debug, PartialEq, Eq, Structural)]
pub struct PlanRay {
    pub end: Point2D,
    pub material: usize,
}

/// The plan view: the filled cells row by row, the camera's place on the
/// surface in fixed-point pixels, and one ray per column, all starting at
/// the camera.
pub struct PlanView {
    pub cells: Vec<CellRect>,
    pub eye: Point2D,
    pub rays: Vec<PlanRay>,
}

/// The rectangle that shows cell `(col, row)` where a cell is `unit_x` by
/// `unit_y` pixels.
pub open spec fn cell_rect(map: &GridMap, col: int, row: int, unit_x: u32, unit_y: u32) -> CellRect {
    CellRect {
        x: (col * unit_x) as u32,
        y: (row * unit_y) as u32,
        width: unit_x,
        height: unit_y,
        material: map.material(col, row),
    }
}

/// The rectangles of the filled cells among the first `n` cells of the
/// grid, counted row by row.
pub open spec fn rects_before(map: &GridMap, unit_x: u32, unit_y: u32, n: nat) -> Seq<CellRect>
    decreases n,
{
    if n == 0 {
        Seq::empty()
    } else {
        let before = rects_before(map, unit_x, unit_y, (n - 1) as nat);
        let col = (n - 1) % map.columns();
        let row = (n - 1) / map.columns();
        if map.material(col, row) != 0 {
            before.push(cell_rect(map, col, row, unit_x, unit_y))
        } else {
            before
        }
    }
}

/// The rectangles of all filled cells of the grid, row by row.
pub open spec fn cell_rects(map: &GridMap, unit_x: u32, unit_y: u32) -> Seq<CellRect> {
    rects_before(map, unit_x, unit_y, (map.columns() * map.rows()) as nat)
}

/// A coordinate in tiles taken to the surface, where a tile is `unit`
/// pixels: a fixed-point number of pixels, or the nearest 64-bit value where
/// that does not fit.
pub open spec fn to_surface(v: int, unit: int) -> int {
    clamp(v * unit, i64::MIN as int, i64::MAX as int)
}

/// How far the ray of a column is followed in the plan view:
/// `PLAN_DISTANCE` divided by the size of the cosine of the angle between
/// the ray and the camera's facing, so that all rays reach the same depth,
/// but never more than `PLAN_REACH_LIMIT`. A cosine of zero counts as the
/// smallest one above it.
pub open spec fn plan_reach(fov: int, column: int, width: int) -> int {
    let c = magnitude(cosine(column_offset(fov, column, width)));
    let full = (PLAN_DISTANCE * TRIG_ONE) / (if c == 0 {
        1
    } else {
        c
    });
    if full > PLAN_REACH_LIMIT {
        PLAN_REACH_LIMIT as int
    } else {
        full
    }
}

/// How far aside of the camera's facing the ray of a column ends:
/// `PLAN_DISTANCE` times the tangent of the angle between the ray and the
/// facing, toward the side to which the ray is turned. A cosine of zero
/// counts as the smallest one above it.
pub open spec fn plan_side(fov: int, column: int, width: int) -> int {
    let s = sine(column_offset(fov, column, width));
    let c = cosine(column_offset(fov, column, width));
    let size = (PLAN_DISTANCE * magnitude(s)) / (if c == 0 {
        1
    } else {
        magnitude(c)
    });
    if (s < 0) != (c < 0) {
        -size
    } else {
        size
    }
}

/// Where the ray of a column ends if it hits nothing, in tiles:
/// `PLAN_DISTANCE` ahead of the camera along its facing and `plan_side`
/// aside of it, a quarter turn further on. That is the point on the ray at
/// `PLAN_DISTANCE` over the cosine of the ray's angle against the facing.
pub open spec fn plan_end(camera: CameraState, column: int, width: int) -> (int, int) {
    let cf = cosine(camera.facing as int);
    let sf = sine(camera.facing as int);
    let w = plan_side(camera.fov as int, column, width);
    (
        camera.position.x + (PLAN_DISTANCE * cf) / (TRIG_ONE as int) + (-(w * sf)) / (
        TRIG_ONE as int),
        camera.position.y + (PLAN_DISTANCE * sf) / (TRIG_ONE as int) + (w * cf) / (
        TRIG_ONE as int),
    )
}

/// The camera's place on the surface, in fixed-point pixels.
pub open spec fn plan_eye(camera: CameraState, map: &GridMap, width: u32, height: u32) -> Point2D {
    Point2D {
        x: to_surface(camera.position.x as int, width as int / map.columns()) as i64,
        y: to_surface(camera.position.y as int, height as int / map.rows()) as i64,
    }
}

/// The ray that the plan view shows for a column. Where the ray hits a
/// wall within its reach it ends at the hit and has the wall's material;
/// where it hits none it ends at `plan_end` and has `NO_HIT_MATERIAL`.
pub open spec fn plan_ray(camera: CameraState, map: &GridMap, width: u32, height: u32, column: int) -> PlanRay {
    let angle = column_angle(camera, column, width as int);
    let reach = plan_reach(camera.fov as int, column, width as int);
    let unit_x = width as int / map.columns();
    let unit_y = height as int / map.rows();
    match nearest_hit(camera.position, direction_at(angle), reach, map) {
        Some(hit) => PlanRay {
            end: Point2D {
                x: to_surface(hit.position.x as int, unit_x) as i64,
                y: to_surface(hit.position.y as int, unit_y) as i64,
            },
            material: hit.material,
        },
        None => PlanRay {
            end: Point2D {
                x: to_surface(plan_end(camera, column, width as int).0, unit_x) as i64,
                y: to_surface(plan_end(camera, column, width as int).1, unit_y) as i64,
            },
            material: NO_HIT_MATERIAL,
        },
    }
}

/// A product that was divided by `TRIG_ONE` and rounded down, times
/// `TRIG_ONE`, falls short of the product by less than `TRIG_ONE`.
proof fn lemma_scaled_back(n: int, q: int)
    requires
        q == n / (TRIG_ONE as int),
    ensures
        0 <= n - q * TRIG_ONE < TRIG_ONE,
{
}

/// Every ray of the plan view that hits nothing ends at the same depth: in
/// tiles, the end of such a ray lies `PLAN_DISTANCE` ahead of the camera
/// along its facing, to within five parts in 65536 of a tile, whatever the
/// column, the field of view and the facing. The depth is measured with the
/// cosine and sine of the facing, which carry a factor of `TRIG_ONE`.
pub proof fn lemma_plan_depth(camera: CameraState, column: int, width: int)
    ensures
        ({
            let end = plan_end(camera, column, width);
            let depth = (end.0 - camera.position.x) * cosine(camera.facing as int) + (end.1
                - camera.position.y) * sine(camera.facing as int);
            -5 * TRIG_ONE <= depth - PLAN_DISTANCE * TRIG_ONE <= 5 * TRIG_ONE
        }),
{
    let t: int = 1073741824;
    let dist: int = 1310720;
    let cf = cosine(camera.facing as int);
    let sf = sine(camera.facing as int);
    let w = plan_side(camera.fov as int, column, width);
    lemma_unit_circle(camera.facing as int);
    assert(TRIG_ONE == t && PLAN_DISTANCE == dist && TRIG_LIMIT == 1073741829 && UNIT_SLACK
        == 11811160064);
    let ws = w * sf;
    let wc = w * cf;
    let ax = (dist * cf) / t;
    let ay = (dist * sf) / t;
    let sx = (-ws) / t;
    let sy = wc / t;
    let r1 = dist * cf - ax * t;
    let r2 = dist * sf - ay * t;
    let r3 = -ws - sx * t;
    let r4 = wc - sy * t;
    lemma_scaled_back(dist * cf, ax);
    lemma_scaled_back(dist * sf, ay);
    lemma_scaled_back(-ws, sx);
    lemma_scaled_back(wc, sy);
    let depth = (ax + sx) * cf + (ay + sy) * sf;
    let cc = cf * cf;
    let ss = sf * sf;
    assert(ws * cf == wc * sf) by (nonlinear_arith)
        requires
            ws == w * sf,
            wc == w * cf,
    ;
    let x = ax + sx;
    let y = ay + sy;
    let xt = x * 1073741824;
    let yt = y * 1073741824;
    assert(xt == 1310720 * cf - r1 - ws - r3);
    assert(yt == 1310720 * sf - r2 + wc - r4);
    assert(depth * 1073741824 == xt * cf + yt * sf) by (nonlinear_arith)
        requires
            depth == x * cf + y * sf,
            xt == x * 1073741824,
            yt == y * 1073741824,
    ;
    assert(xt * cf == 1310720 * cc - (r1 + r3) * cf - ws * cf) by (nonlinear_arith)
        requires
            xt == 1310720 * cf - r1 - ws - r3,
            cc == cf * cf,
    ;
    assert(yt * sf == 1310720 * ss - (r2 + r4) * sf + wc * sf) by (nonlinear_arith)
        requires
            yt == 1310720 * sf - r2 + wc - r4,
            ss == sf * sf,
    ;
    assert(depth * 1073741824 == 1310720 * (cc + ss) - (r1 + r3) * cf - (r2 + r4) * sf);
    assert(-2 * t * 1073741829 <= (r1 + r3) * cf <= 2 * t * 1073741829) by (nonlinear_arith)
        requires
            0 <= r1 + r3 <= 2 * t,
            -1073741829 <= cf <= 1073741829,
            t == 1073741824,
    ;
    assert(-2 * t * 1073741829 <= (r2 + r4) * sf <= 2 * t * 1073741829) by (nonlinear_arith)
        requires
            0 <= r2 + r4 <= 2 * t,
            -1073741829 <= sf <= 1073741829,
            t == 1073741824,
    ;
    assert(t * t == 1152921504606846976) by (nonlinear_arith)
        requires
            t == 1073741824,
    ;
    assert(-11811160064 <= cc + ss - 1152921504606846976 <= 11811160064);
    assert(-5 * 1073741824 <= depth - 1310720 * 1073741824 <= 5 * 1073741824);
}

/// The depth law on the surface. Where a tile is as many pixels wide as it
/// is high and the ray of a column hits nothing, the ray's end on the
/// surface lies `PLAN_DISTANCE` tiles ahead of the camera's place along the
/// facing, to within five parts in 65536 of a tile. This holds as long as
/// the coordinates on the surface fit in 64 bits.
pub proof fn lemma_plan_ray_depth(
    camera: CameraState,
    map: &GridMap,
    width: u32,
    height: u32,
    column: int,
)
    requires
        nearest_hit(
            camera.position,
            direction_at(column_angle(camera, column, width as int)),
            plan_reach(camera.fov as int, column, width as int),
            map,
        ) is None,
        width as int / map.columns() == height as int / map.rows(),
        width as int / map.columns() >= 0,
        ({
            let unit = width as int / map.columns();
            let end = plan_end(camera, column, width as int);
            &&& i64::MIN <= end.0 * unit <= i64::MAX
            &&& i64::MIN <= end.1 * unit <= i64::MAX
            &&& i64::MIN <= camera.position.x * unit <= i64::MAX
            &&& i64::MIN <= camera.position.y * unit <= i64::MAX
        }),
    ensures
        ({
            let unit = width as int / map.columns();
            let ray = plan_ray(camera, map, width, height, column);
            let eye = plan_eye(camera, map, width, height);
            let depth = (ray.end.x - eye.x) * cosine(camera.facing as int) + (ray.end.y - eye.y)
                * sine(camera.facing as int);
            -5 * TRIG_ONE * unit <= depth - unit * (PLAN_DISTANCE * TRIG_ONE) <= 5 * TRIG_ONE * unit
        }),
{
    let unit = width as int / map.columns();
    let end = plan_end(camera, column, width as int);
    let cf = cosine(camera.facing as int);
    let sf = sine(camera.facing as int);
    lemma_plan_depth(camera, column, width as int);
    let dx = end.0 - camera.position.x;
    let dy = end.1 - camera.position.y;
    let inner = dx * cf + dy * sf;
    let ray = plan_ray(camera, map, width, height, column);
    let eye = plan_eye(camera, map, width, height);
    assert(ray.end.x - eye.x == unit * dx) by (nonlinear_arith)
        requires
            ray.end.x == end.0 * unit,
            eye.x == camera.position.x * unit,
            dx == end.0 - camera.position.x,
    ;
    assert(ray.end.y - eye.y == unit * dy) by (nonlinear_arith)
        requires
            ray.end.y == end.1 * unit,
            eye.y == camera.position.y * unit,
            dy == end.1 - camera.position.y,
    ;
    assert((unit * dx) * cf + (unit * dy) * sf == unit * inner) by (nonlinear_arith)
        requires
            inner == dx * cf + dy * sf,
    ;
    let off = inner - PLAN_DISTANCE * TRIG_ONE;
    assert(unit * inner - unit * (PLAN_DISTANCE * TRIG_ONE) == unit * off) by (nonlinear_arith)
        requires
            off == inner - PLAN_DISTANCE * TRIG_ONE,
    ;
    assert(-5 * TRIG_ONE * unit <= unit * off <= 5 * TRIG_ONE * unit) by (nonlinear_arith)
        requires
            -5 * TRIG_ONE <= off <= 5 * TRIG_ONE,
            unit >= 0,
    ;
}

/// Takes a coordinate in tiles to the surface.
fn surface_coordinate(v: i128, unit: u32) -> (r: i64)
    requires
        -0x8_0000_0000_0000 <= v <= 0x8_0000_0000_0000,
    ensures
        r == to_surface(v as int, unit as int),
{
    assert(-0x8_0000_0000_0000_0000_0000 <= v * unit <= 0x8_0000_0000_0000_0000_0000)
        by (nonlinear_arith)
        requires
            -0x8_0000_0000_0000 <= v <= 0x8_0000_0000_0000,
            0 <= unit <= 0xffff_ffff,
    ;
    let p: i128 = v * (unit as i128);
    if p < i64::MIN as i128 {
        i64::MIN
    } else if p > i64::MAX as i128 {
        i64::MAX
    } else {
        p as i64
    }
}

/// Computes how far the ray of a column is followed in the plan view.
pub fn plan_reach_of(fov: i64, column: u32, width: u32) -> (reach: i64)
    requires
        column < width,
    ensures
        reach == plan_reach(fov as int, column as int, width as int),
        0 <= reach <= PLAN_REACH_LIMIT,
{
    let offset: i128 = column_offset_of(fov, column, width);
    proof {
        lemma_normalize_keeps_direction(offset as int);
    }
    let turn: (i64, i64) = sin_cos(rem_floor(offset, FULL_TURN as i128) as i64);
    let size: i64 = if turn.1 < 0 {
        -turn.1
    } else {
        turn.1
    };
    let divisor: i64 = if size == 0 {
        1
    } else {
        size
    };
    proof {
        vstd::arithmetic::div_mod::lemma_div_pos_is_pos(PLAN_DISTANCE * TRIG_ONE, divisor as int);
    }
    let full: i64 = (PLAN_DISTANCE * TRIG_ONE) / divisor;
    if full > PLAN_REACH_LIMIT {
        PLAN_REACH_LIMIT
    } else {
        full
    }
}

/// Computes how far aside of the camera's facing the ray of a column ends.
pub fn plan_side_of(fov: i64, column: u32, width: u32) -> (side: i64)
    requires
        column < width,
    ensures
        side == plan_side(fov as int, column as int, width as int),
        -PLAN_DISTANCE * TRIG_LIMIT <= side <= PLAN_DISTANCE * TRIG_LIMIT,
{
    let offset: i128 = column_offset_of(fov, column, width);
    proof {
        lemma_normalize_keeps_direction(offset as int);
    }
    let turn: (i64, i64) = sin_cos(rem_floor(offset, FULL_TURN as i128) as i64);
    let up: i64 = if turn.0 < 0 {
        -turn.0
    } else {
        turn.0
    };
    let along: i64 = if turn.1 < 0 {
        -turn.1
    } else {
        turn.1
    };
    let divisor: i64 = if along == 0 {
        1
    } else {
        along
    };
    let whole: i64 = PLAN_DISTANCE * up;
    proof {
        let limit = PLAN_DISTANCE * TRIG_LIMIT;
        assert(limit <= limit * divisor) by (nonlinear_arith)
            requires
                1 <= divisor,
                0 <= limit,
        ;
        assert(divisor * limit == limit * divisor) by (nonlinear_arith);
        vstd::arithmetic::div_mod::lemma_div_is_ordered(whole as int, limit * divisor, divisor as int);
        vstd::arithmetic::div_mod::lemma_div_multiples_vanish(limit, divisor as int);
        vstd::arithmetic::div_mod::lemma_div_pos_is_pos(whole as int, divisor as int);
    }
    let size: i64 = whole / divisor;
    if (turn.0 < 0) != (turn.1 < 0) {
        -size
    } else {
        size
    }
}

/// Computes where the ray of a column ends if it hits nothing, in tiles.
fn plan_end_of(camera: &CameraState, column: u32, width: u32) -> (end: (i128, i128))
    requires
        camera.position.in_limits(),
        column < width,
    ensures
        end.0 == plan_end(*camera, column as int, width as int).0,
        end.1 == plan_end(*camera, column as int, width as int).1,
        -0x8_0000_0000_0000 <= end.0 <= 0x8_0000_0000_0000,
        -0x8_0000_0000_0000 <= end.1 <= 0x8_0000_0000_0000,
{
    let facing: (i64, i64) = sin_cos(camera.facing);
    let sf: i128 = facing.0 as i128;
    let cf: i128 = facing.1 as i128;
    let w: i128 = plan_side_of(camera.fov, column, width) as i128;
    let d: i128 = PLAN_DISTANCE as i128;
    let t: i128 = TRIG_ONE as i128;
    proof {
        assert(-1407374890631480 * 1073741829 <= w * sf <= 1407374890631480 * 1073741829)
            by (nonlinear_arith)
            requires
                -1407374890631480 <= w <= 1407374890631480,
                -1073741829 <= sf <= 1073741829,
        ;
        assert(-1407374890631480 * 1073741829 <= w * cf <= 1407374890631480 * 1073741829)
            by (nonlinear_arith)
            requires
                -1407374890631480 <= w <= 1407374890631480,
                -1073741829 <= cf <= 1073741829,
        ;
    }
    let ahead_x: i128 = div_floor(d * cf, t);
    let ahead_y: i128 = div_floor(d * sf, t);
    let aside_x: i128 = div_floor(-(w * sf), t);
    let aside_y: i128 = div_floor(w * cf, t);
    (
        camera.position.x as i128 + ahead_x + aside_x,
        camera.position.y as i128 + ahead_y + aside_y,
    )
}

/// Computes the ray that the plan view shows for a column.
pub fn plan_ray_of(camera: &CameraState, map: &GridMap, width: u32, height: u32, column: u32) -> (ray:
    PlanRay)
    requires
        camera.position.in_limits(),
        map.columns() > 0,
        map.rows() > 0,
        column < width,
    ensures
        ray == plan_ray(*camera, map, width, height, column as int),
{
    let angle: i64 = column_angle_of(camera, column, width);
    let reach: i64 = plan_reach_of(camera.fov, column, width);
    let unit_x: u32 = width / map.width();
    let unit_y: u32 = height / map.height();
    match cast(camera.position, angle, reach, map) {
        Some(hit) => {
            proof {
                lemma_hit_lies_close(camera.position, hit.position, reach as int);
            }
            PlanRay {
                end: Point2D {
                    x: surface_coordinate(hit.position.x as i128, unit_x),
                    y: surface_coordinate(hit.position.y as i128, unit_y),
                },
                material: hit.material,
            }
        },
        None => {
            let end: (i128, i128) = plan_end_of(camera, column, width);
            PlanRay {
                end: Point2D {
                    x: surface_coordinate(end.0, unit_x),
                    y: surface_coordinate(end.1, unit_y),
                },
                material: NO_HIT_MATERIAL,
            }
        },
    }
}

/// The first `n` cells of a grid, taken one row at a time, end in column
/// `col` of row `row` where `n` is `row` full rows and `col` cells more.
proof fn lemma_cell_index(columns: int, row: int, col: int)
    requires
        0 <= col < columns,
        0 <= row,
    ensures
        (row * columns + col) / columns == row,
        (row * columns + col) % columns == col,
        0 <= row * columns + col,
{
    vstd::arithmetic::div_mod::lemma_fundamental_div_mod_converse(
        row * columns + col,
        columns,
        row,
        col,
    );
    assert(0 <= row * columns) by (nonlinear_arith)
        requires
            0 <= row,
            0 <= columns,
    ;
}

/// Computes the rectangles of all filled cells of the grid, row by row,
/// where a cell is `unit_x` by `unit_y` pixels.
pub fn cell_rects_of(map: &GridMap, unit_x: u32, unit_y: u32) -> (cells: Vec<CellRect>)
    requires
        map.columns() * unit_x <= u32::MAX,
        map.rows() * unit_y <= u32::MAX,
    ensures
        cells@ == cell_rects(map, unit_x, unit_y),
{
    let columns: u32 = map.width();
    let rows: u32 = map.height();
    let mut cells: Vec<CellRect> = Vec::new();
    let mut row: u32 = 0;
    assert(0 * columns == 0);
    while row < rows
        invariant
            columns == map.columns(),
            rows == map.rows(),
            row <= rows,
            map.columns() * unit_x <= u32::MAX,
            map.rows() * unit_y <= u32::MAX,
            0 <= row * columns,
            cells@ == rects_before(map, unit_x, unit_y, (row * columns) as nat),
        decreases rows - row,
    {
        let mut col: u32 = 0;
        while col < columns
            invariant
                columns == map.columns(),
                rows == map.rows(),
                row < rows,
                col <= columns,
                map.columns() * unit_x <= u32::MAX,
                map.rows() * unit_y <= u32::MAX,
                0 <= row * columns,
                cells@ == rects_before(map, unit_x, unit_y, (row * columns + col) as nat),
            decreases columns - col,
        {
            proof {
                lemma_cell_index(columns as int, row as int, col as int);
                assert(col * unit_x <= columns * unit_x) by (nonlinear_arith)
                    requires
                        0 <= col <= columns,
                        0 <= unit_x,
                ;
                assert(row * unit_y <= rows * unit_y) by (nonlinear_arith)
                    requires
                        0 <= row <= rows,
                        0 <= unit_y,
                ;
                assert(0 <= col * unit_x && 0 <= row * unit_y) by (nonlinear_arith)
                    requires
                        0 <= col,
                        0 <= row,
                        0 <= unit_x,
                        0 <= unit_y,
                ;
            }
            let material: usize = match map.cell(col, row) {
                Some(m) => m,
                None => 0,
            };
            if material != 0 {
                cells.push(
                    CellRect {
                        x: col * unit_x,
                        y: row * unit_y,
                        width: unit_x,
                        height: unit_y,
                        material,
                    },
                );
            }
            col += 1;
        }
        proof {
            assert((row + 1) * columns == row * columns + columns) by (nonlinear_arith);
        }
        row += 1;
    }
    proof {
        assert(rows * columns == columns * rows) by (nonlinear_arith);
    }
    cells
}

/// Renders the plan view of `map` from `camera` on a surface of `width`
/// columns and `height` rows.
pub fn render_plan(camera: &CameraState, map: &GridMap, width: u32, height: u32) -> (view: PlanView)
    requires
        camera.position.in_limits(),
        map.columns() > 0,
        map.rows() > 0,
    ensures
        view.cells@ == cell_rects(
            map,
            (width as int / map.columns()) as u32,
            (height as int / map.rows()) as u32,
        ),
        view.eye == plan_eye(*camera, map, width, height),
        view.rays@.len() == width,
        forall|i: int|
            0 <= i < width ==> view.rays@[i] == #[trigger] plan_ray(*camera, map, width, height, i),
{
    let unit_x: u32 = width / map.width();
    let unit_y: u32 = height / map.height();
    proof {
        vstd::arithmetic::div_mod::lemma_fundamental_div_mod(width as int, map.columns());
        vstd::arithmetic::div_mod::lemma_mod_bound(width as int, map.columns());
        vstd::arithmetic::div_mod::lemma_fundamental_div_mod(height as int, map.rows());
        vstd::arithmetic::div_mod::lemma_mod_bound(height as int, map.rows());
    }
    let cells: Vec<CellRect> = cell_rects_of(map, unit_x, unit_y);
    let eye = Point2D {
        x: surface_coordinate(camera.position.x as i128, unit_x),
        y: surface_coordinate(camera.position.y as i128, unit_y),
    };
    let mut rays: Vec<PlanRay> = Vec::new();
    let mut column: u32 = 0;
    while column < width
        invariant
            column <= width,
            camera.position.in_limits(),
            map.columns() > 0,
            map.rows() > 0,
            rays@.len() == column,
            forall|i: int|
                0 <= i < column ==> rays@[i] == #[trigger] plan_ray(*camera, map, width, height, i),
        decreases width - column,
    {
        let ray: PlanRay = plan_ray_of(camera, map, width, height, column);
        rays.push(ray);
        column += 1;
    }
    PlanView { cells, eye, rays }
}

} // verus!
