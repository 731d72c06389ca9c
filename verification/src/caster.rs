//! The ray caster: the nearest wall that a ray meets on its way through the grid.
//!
//! A ray is followed from one grid-line crossing to the next. The crossings
//! of vertical grid lines form one family and those of horizontal grid
//! lines the other; within a family each crossing lies one tile further
//! along the ray's main axis than the one before. At a crossing the cell
//! that the ray is about to enter is inspected, and the first crossing in
//! order of distance that faces a filled cell is the hit.

use vstd::prelude::*;
use crate::direction::direction_at;
use crate::direction::direction_of;
use crate::direction::RayDirection;
use crate::direction::SLOPE_LIMIT;
use crate::fixed::div_floor;
use crate::fixed::fixed_product;
use crate::fixed::rem_floor;
use crate::fixed::ONE;
use crate::grid::GridMap;
use crate::trig::lemma_axis_values;
use crate::trig::HALF_TURN;
use crate::trig::QUARTER_TURN;
use crate::trig::THREE_QUARTER_TURN;

verus! {

/// The largest size of a coordinate from which a ray may start: every point
/// of every grid lies within it.
pub const COORD_LIMIT: i64 = 281474976710656;

/// The largest size of a ray's maximum distance.
pub const RANGE_LIMIT: i64 = 1099511627776;

/// A point of the plane, in fixed-point tiles.
#[derive(Clone, Copy, Debug, PartialEq, Eq, Structural)]
pub struct Point2D {
    pub x: i64,
    pub y: i64,
}

/// Where a ray met a wall, and the material of that wall.
#[derive(Clone, Copy, Debug, PartialEq, Eq, Structural)]
pub struct RayHit {
    pub position: Point2D,
    pub material: usize,
}

/// The two families of crossings: of vertical grid lines, where x is a whole
/// number of tiles, and of horizontal ones, where y is.
pub enum Family {
    Vertical,
    Horizontal,
}

impl Point2D {
    /// Both coordinates are at most `COORD_LIMIT` in size.
    pub open spec fn in_limits(&self) -> bool {
        &&& -COORD_LIMIT <= self.x <= COORD_LIMIT
        &&& -COORD_LIMIT <= self.y <= COORD_LIMIT
    }

    /// Says whether both coordinates are at most `COORD_LIMIT` in size.
    pub fn is_in_limits(&self) -> (b: bool)
        ensures
            b == self.in_limits(),
    {
        -COORD_LIMIT <= self.x && self.x <= COORD_LIMIT && -COORD_LIMIT <= self.y && self.y
            <= COORD_LIMIT
    }
}

/// The least whole number of tiles that is not below `v`.
pub open spec fn grid_ceil(v: int) -> int {
    -((-v) / (ONE as int)) * ONE
}

/// The distance from `v` to the first grid line in direction `dir`. Toward
/// larger coordinates that is the line at or after `v`; toward smaller ones
/// it is the last line strictly before `v`.
pub open spec fn first_step(v: int, dir: int) -> int {
    if dir < 0 {
        v - grid_ceil(v - ONE)
    } else {
        grid_ceil(v) - v
    }
}

/// The distance `v`, taken in direction `dir`.
pub open spec fn toward(dir: int, v: int) -> int {
    if dir < 0 {
        -v
    } else {
        v
    }
}

/// The index of the tile that holds coordinate `v`.
pub open spec fn tile_of(v: int) -> int {
    v / (ONE as int)
}

/// The slope that governs a family: the tangent for crossings of vertical
/// lines, the cotangent for crossings of horizontal ones.
pub open spec fn slope_for(d: RayDirection, f: Family) -> Option<i64> {
    match f {
        Family::Vertical => d.tan,
        Family::Horizontal => d.cot,
    }
}

/// The distance along a family's main axis from the origin to its first
/// crossing.
pub open spec fn first_for(origin: Point2D, d: RayDirection, f: Family) -> int {
    match f {
        Family::Vertical => first_step(origin.x as int, d.dir_x as int),
        Family::Horizontal => first_step(origin.y as int, d.dir_y as int),
    }
}

/// How far crossing `k` of a family lies from the origin along the family's
/// main axis.
pub open spec fn along(first: int, k: int) -> int {
    first + k * (ONE as int)
}

/// How far crossing `k` of a family lies from the origin along the other
/// axis.
pub open spec fn across(first: int, slope: int, k: int) -> int {
    fixed_product(first, slope) + k * slope
}

/// The square of the distance from the origin to crossing `k` of family `f`.
pub open spec fn reach_squared(origin: Point2D, d: RayDirection, f: Family, k: int) -> int {
    let first = first_for(origin, d, f);
    let slope = slope_for(d, f).unwrap() as int;
    along(first, k) * along(first, k) + across(first, slope, k) * across(first, slope, k)
}

/// The position of crossing `k` of family `f`.
pub open spec fn crossing(origin: Point2D, d: RayDirection, f: Family, k: int) -> (int, int) {
    let first = first_for(origin, d, f);
    let slope = slope_for(d, f).unwrap() as int;
    match f {
        Family::Vertical => (
            origin.x + toward(d.dir_x as int, along(first, k)),
            origin.y + toward(d.dir_y as int, across(first, slope, k)),
        ),
        Family::Horizontal => (
            origin.x + toward(d.dir_x as int, across(first, slope, k)),
            origin.y + toward(d.dir_y as int, along(first, k)),
        ),
    }
}

/// The material of the cell `dcol` columns and `drow` rows from the tile
/// that holds `(x, y)`. A tile in the first column or row, or outside the
/// grid, is not looked behind: the result is then 0.
pub open spec fn material_behind(map: &GridMap, x: int, y: int, dcol: int, drow: int) -> usize {
    let col = tile_of(x);
    let row = tile_of(y);
    if 0 < col < map.columns() && 0 < row < map.rows() {
        map.material(col + dcol, row + drow)
    } else {
        0
    }
}

/// The material of the cell that the ray enters at crossing `k` of family
/// `f`.
pub open spec fn crossing_material(
    origin: Point2D,
    d: RayDirection,
    map: &GridMap,
    f: Family,
    k: int,
) -> usize {
    let p = crossing(origin, d, f, k);
    match f {
        Family::Vertical => material_behind(map, p.0, p.1, d.dir_x as int, 0),
        Family::Horizontal => material_behind(map, p.0, p.1, 0, d.dir_y as int),
    }
}

/// Crossing `k` of family `f` exists, lies within the maximum distance, and
/// faces a filled cell.
pub open spec fn is_hit(
    origin: Point2D,
    d: RayDirection,
    cutoff: int,
    map: &GridMap,
    f: Family,
    k: int,
) -> bool {
    &&& 0 <= k
    &&& slope_for(d, f) is Some
    &&& reach_squared(origin, d, f, k) <= cutoff * cutoff
    &&& crossing_material(origin, d, map, f, k) != 0
}

/// A crossing of family `fa` at squared distance `ra` is met no later than
/// one of family `fb` at squared distance `rb`: the nearer one comes first,
/// and at equal distance a crossing of a vertical line comes before one of
/// a horizontal line.
pub open spec fn comes_first(fa: Family, ra: int, fb: Family, rb: int) -> bool {
    ra < rb || (ra == rb && (fa is Vertical || fb is Horizontal))
}

/// `hit` describes crossing `k` of family `f`, which is a hit and comes
/// first among all hits.
pub open spec fn wins(
    hit: RayHit,
    origin: Point2D,
    d: RayDirection,
    cutoff: int,
    map: &GridMap,
    f: Family,
    k: int,
) -> bool {
    &&& is_hit(origin, d, cutoff, map, f, k)
    &&& hit.position.x == crossing(origin, d, f, k).0
    &&& hit.position.y == crossing(origin, d, f, k).1
    &&& hit.material == crossing_material(origin, d, map, f, k)
    &&& forall|g: Family, j: int| #[trigger]
        is_hit(origin, d, cutoff, map, g, j) ==> comes_first(
            f,
            reach_squared(origin, d, f, k),
            g,
            reach_squared(origin, d, g, j),
        )
}

/// `hit` describes the first hit along the ray.
pub open spec fn is_nearest_hit(
    hit: RayHit,
    origin: Point2D,
    d: RayDirection,
    cutoff: int,
    map: &GridMap,
) -> bool {
    exists|f: Family, k: int| wins(hit, origin, d, cutoff, map, f, k)
}

/// The result of casting a ray from `origin` in direction `d`: the first hit
/// within `cutoff`, or `None` where no crossing within `cutoff` faces a
/// filled cell.
pub open spec fn nearest_hit(origin: Point2D, d: RayDirection, cutoff: int, map: &GridMap) -> Option<
    RayHit,
> {
    if exists|hit: RayHit| is_nearest_hit(hit, origin, d, cutoff, map) {
        Some(choose|hit: RayHit| is_nearest_hit(hit, origin, d, cutoff, map))
    } else {
        None
    }
}

/// The square of the distance between two points.
pub open spec fn distance_squared(a: Point2D, b: Point2D) -> int {
    (b.x - a.x) * (b.x - a.x) + (b.y - a.y) * (b.y - a.y)
}

/// `r` is what a cast may return: the first hit, or nothing where no
/// crossing is a hit.
pub open spec fn describes_cast(
    r: Option<RayHit>,
    origin: Point2D,
    d: RayDirection,
    cutoff: int,
    map: &GridMap,
) -> bool {
    match r {
        Some(hit) => is_nearest_hit(hit, origin, d, cutoff, map),
        None => forall|f: Family, k: int| !is_hit(origin, d, cutoff, map, f, k),
    }
}

/// The first grid line lies within one tile, and strictly ahead when
/// stepping toward smaller coordinates.
pub proof fn lemma_first_step_range(v: int, dir: int)
    ensures
        0 <= first_step(v, dir) <= ONE,
        dir < 0 ==> 0 < first_step(v, dir),
        dir >= 0 ==> first_step(v, dir) < ONE,
        (v + toward(dir, first_step(v, dir))) % (ONE as int) == 0,
{
}

/// Sums of squares grow with their terms.
proof fn lemma_squares_grow(a: int, b: int, c: int, e: int)
    requires
        0 <= a < c,
        0 <= b <= e,
    ensures
        a * a + b * b < c * c + e * e,
{
    assert(a * a < c * c) by (nonlinear_arith)
        requires
            0 <= a < c,
    ;
    assert(b * b <= e * e) by (nonlinear_arith)
        requires
            0 <= b <= e,
    ;
}

/// Neither term of a sum of squares that stays within `c * c` exceeds the
/// size of `c`.
proof fn lemma_within_range(a: int, b: int, c: int, m: int)
    requires
        0 <= a,
        0 <= b,
        a * a + b * b <= c * c,
        m == if c < 0 {
            -c
        } else {
            c
        },
    ensures
        a <= m,
        b <= m,
{
    assert(m * m == c * c) by (nonlinear_arith)
        requires
            m == c || m == -c,
    ;
    assert(b * b >= 0) by (nonlinear_arith);
    assert(a * a >= 0) by (nonlinear_arith);
    if a > m {
        assert(a * a > m * m) by (nonlinear_arith)
            requires
                0 <= m < a,
        ;
    }
    if b > m {
        assert(b * b > m * m) by (nonlinear_arith)
            requires
                0 <= m < b,
        ;
    }
}

/// Both offsets of a crossing are non-negative, and they grow with `k`.
pub proof fn lemma_offsets_grow(first: int, slope: int, i: int, j: int)
    requires
        0 <= first,
        0 <= slope,
        0 <= i <= j,
    ensures
        0 <= along(first, i) <= along(first, j),
        i < j ==> along(first, i) < along(first, j),
        0 <= across(first, slope, i) <= across(first, slope, j),
        along(first, i + 1) == along(first, i) + ONE,
        across(first, slope, i + 1) == across(first, slope, i) + slope,
{
    assert(0 <= first * slope) by (nonlinear_arith)
        requires
            0 <= first,
            0 <= slope,
    ;
    assert(0 <= i * slope <= j * slope) by (nonlinear_arith)
        requires
            0 <= i <= j,
            0 <= slope,
    ;
    assert((i + 1) * slope == i * slope + slope) by (nonlinear_arith);
}

/// Within a family, a later crossing lies strictly further from the origin.
pub proof fn lemma_reach_grows(origin: Point2D, d: RayDirection, f: Family, i: int, j: int)
    requires
        d.wf(),
        slope_for(d, f) is Some,
        0 <= i < j,
    ensures
        reach_squared(origin, d, f, i) < reach_squared(origin, d, f, j),
{
    let first = first_for(origin, d, f);
    let slope = slope_for(d, f).unwrap() as int;
    lemma_first_step_range(origin.x as int, d.dir_x as int);
    lemma_first_step_range(origin.y as int, d.dir_y as int);
    lemma_offsets_grow(first, slope, i, j);
    lemma_squares_grow(
        along(first, i),
        across(first, slope, i),
        along(first, j),
        across(first, slope, j),
    );
}

/// At most one hit comes first: two descriptions of the first hit are equal.
pub proof fn lemma_nearest_hit_unique(
    a: RayHit,
    b: RayHit,
    origin: Point2D,
    d: RayDirection,
    cutoff: int,
    map: &GridMap,
)
    requires
        d.wf(),
        is_nearest_hit(a, origin, d, cutoff, map),
        is_nearest_hit(b, origin, d, cutoff, map),
    ensures
        a == b,
{
    let (fa, ka) = choose|f: Family, k: int| wins(a, origin, d, cutoff, map, f, k);
    let (fb, kb) = choose|f: Family, k: int| wins(b, origin, d, cutoff, map, f, k);
    assert(is_hit(origin, d, cutoff, map, fa, ka));
    assert(is_hit(origin, d, cutoff, map, fb, kb));
    assert(fa == fb);
    if ka < kb {
        lemma_reach_grows(origin, d, fa, ka, kb);
    }
    if kb < ka {
        lemma_reach_grows(origin, d, fa, kb, ka);
    }
    assert(ka == kb);
}

/// A hit that comes first among all hits is the result of the cast.
pub proof fn lemma_winner_is_nearest(
    hit: RayHit,
    origin: Point2D,
    d: RayDirection,
    cutoff: int,
    map: &GridMap,
    f: Family,
    k: int,
)
    requires
        d.wf(),
        wins(hit, origin, d, cutoff, map, f, k),
    ensures
        nearest_hit(origin, d, cutoff, map) == Some(hit),
{
    assert(is_nearest_hit(hit, origin, d, cutoff, map));
    let chosen = choose|h: RayHit| is_nearest_hit(h, origin, d, cutoff, map);
    lemma_nearest_hit_unique(hit, chosen, origin, d, cutoff, map);
}

/// Where no crossing is a hit, the cast finds nothing.
pub proof fn lemma_no_hit_misses(origin: Point2D, d: RayDirection, cutoff: int, map: &GridMap)
    requires
        forall|f: Family, k: int| !is_hit(origin, d, cutoff, map, f, k),
    ensures
        nearest_hit(origin, d, cutoff, map) is None,
{
    assert forall|hit: RayHit| !is_nearest_hit(hit, origin, d, cutoff, map) by {
        if is_nearest_hit(hit, origin, d, cutoff, map) {
            let (f, k) = choose|f: Family, k: int| wins(hit, origin, d, cutoff, map, f, k);
            assert(is_hit(origin, d, cutoff, map, f, k));
        }
    }
}

/// A ray none of whose crossings within the maximum distance faces a filled
/// cell hits nothing.
pub proof fn lemma_clear_path_misses(origin: Point2D, d: RayDirection, cutoff: int, map: &GridMap)
    requires
        forall|f: Family, k: int|
            0 <= k && slope_for(d, f) is Some && reach_squared(origin, d, f, k) <= cutoff * cutoff
                ==> #[trigger] crossing_material(origin, d, map, f, k) == 0,
    ensures
        nearest_hit(origin, d, cutoff, map) is None,
{
    assert forall|f: Family, k: int| !is_hit(origin, d, cutoff, map, f, k) by {
        if is_hit(origin, d, cutoff, map, f, k) {
            assert(crossing_material(origin, d, map, f, k) == 0);
        }
    }
    lemma_no_hit_misses(origin, d, cutoff, map);
}

/// Casting is deterministic: whatever two casts from the same origin, in
/// the same direction, with the same maximum distance and on the same grid
/// return, it is the same.
pub proof fn lemma_cast_is_deterministic(
    a: Option<RayHit>,
    b: Option<RayHit>,
    origin: Point2D,
    d: RayDirection,
    cutoff: int,
    map: &GridMap,
)
    requires
        d.wf(),
        describes_cast(a, origin, d, cutoff, map),
        describes_cast(b, origin, d, cutoff, map),
    ensures
        a == b,
        a == nearest_hit(origin, d, cutoff, map),
{
    if let Some(hit) = a {
        let (f, k) = choose|f: Family, k: int| wins(hit, origin, d, cutoff, map, f, k);
        assert(is_hit(origin, d, cutoff, map, f, k));
        lemma_winner_is_nearest(hit, origin, d, cutoff, map, f, k);
    } else {
        lemma_no_hit_misses(origin, d, cutoff, map);
    }
    if let Some(hit) = b {
        let (f, k) = choose|f: Family, k: int| wins(hit, origin, d, cutoff, map, f, k);
        assert(is_hit(origin, d, cutoff, map, f, k));
        lemma_winner_is_nearest(hit, origin, d, cutoff, map, f, k);
    } else {
        lemma_no_hit_misses(origin, d, cutoff, map);
    }
}

/// The squared distance from the origin to a crossing is its
/// `reach_squared`.
pub proof fn lemma_reach_is_distance(origin: Point2D, d: RayDirection, f: Family, k: int)
    ensures
        ({
            let p = crossing(origin, d, f, k);
            (p.0 - origin.x) * (p.0 - origin.x) + (p.1 - origin.y) * (p.1 - origin.y)
                == reach_squared(origin, d, f, k)
        }),
{
    let first = first_for(origin, d, f);
    let slope = slope_for(d, f).unwrap() as int;
    let a = along(first, k);
    let b = across(first, slope, k);
    assert((-a) * (-a) == a * a) by (nonlinear_arith);
    assert((-b) * (-b) == b * b) by (nonlinear_arith);
}

/// A point within `reach` of another differs from it by at most `reach` on
/// each axis.
pub proof fn lemma_hit_lies_close(a: Point2D, b: Point2D, reach: int)
    requires
        0 <= reach,
        distance_squared(a, b) <= reach * reach,
    ensures
        -reach <= b.x - a.x <= reach,
        -reach <= b.y - a.y <= reach,
{
    let dx = b.x - a.x;
    let dy = b.y - a.y;
    assert(dx * dx >= 0 && dy * dy >= 0) by (nonlinear_arith);
    if dx > reach || dx < -reach {
        assert(dx * dx > reach * reach) by (nonlinear_arith)
            requires
                0 <= reach,
                dx > reach || dx < -reach,
        ;
    }
    if dy > reach || dy < -reach {
        assert(dy * dy > reach * reach) by (nonlinear_arith)
            requires
                0 <= reach,
                dy > reach || dy < -reach,
        ;
    }
}

/// On a grid without a filled cell no ray hits anything.
pub proof fn lemma_empty_grid_misses(origin: Point2D, d: RayDirection, cutoff: int, map: &GridMap)
    requires
        d.wf(),
        map.is_empty(),
    ensures
        nearest_hit(origin, d, cutoff, map) is None,
{
    assert forall|f: Family, k: int| !is_hit(origin, d, cutoff, map, f, k) by {
        let p = crossing(origin, d, f, k);
        let col = tile_of(p.0);
        let row = tile_of(p.1);
        if 0 < col < map.columns() && 0 < row < map.rows() {
            match f {
                Family::Vertical => {
                    assert(map.contains(col + d.dir_x, row));
                    assert(map.material(col + d.dir_x, row) == 0);
                },
                Family::Horizontal => {
                    assert(map.contains(col, row + d.dir_y));
                    assert(map.material(col, row + d.dir_y) == 0);
                },
            }
        }
    }
    lemma_no_hit_misses(origin, d, cutoff, map);
}

/// Where only one family of crossings exists, its first hit is the result of
/// the cast.
pub proof fn lemma_lone_family_hit(
    hit: RayHit,
    origin: Point2D,
    d: RayDirection,
    cutoff: int,
    map: &GridMap,
    f: Family,
    k: int,
)
    requires
        d.wf(),
        match f {
            Family::Vertical => d.cot is None,
            Family::Horizontal => d.tan is None,
        },
        is_hit(origin, d, cutoff, map, f, k),
        forall|j: int| 0 <= j < k ==> !is_hit(origin, d, cutoff, map, f, j),
        hit.position.x == crossing(origin, d, f, k).0,
        hit.position.y == crossing(origin, d, f, k).1,
        hit.material == crossing_material(origin, d, map, f, k),
    ensures
        nearest_hit(origin, d, cutoff, map) == Some(hit),
{
    assert forall|g: Family, j: int| #[trigger] is_hit(origin, d, cutoff, map, g, j) implies comes_first(
        f,
        reach_squared(origin, d, f, k),
        g,
        reach_squared(origin, d, g, j),
    ) by {
        assert(g == f);
        if j > k {
            lemma_reach_grows(origin, d, f, k, j);
        }
    }
    lemma_winner_is_nearest(hit, origin, d, cutoff, map, f, k);
}

/// A ray along the x axis toward larger x hits the first filled cell ahead
/// of it in its row, on that cell's near face and at exactly the distance
/// of that face.
pub proof fn lemma_cast_toward_larger_x(origin: Point2D, cutoff: int, map: &GridMap, wall: int)
    requires
        0 < tile_of(origin.y as int) < map.rows(),
        0 < wall < map.columns(),
        origin.x <= wall * ONE,
        (wall * ONE - origin.x) * (wall * ONE - origin.x) <= cutoff * cutoff,
        map.material(wall, tile_of(origin.y as int)) != 0,
        forall|col: int|
            0 < col < wall && origin.x <= col * ONE ==> #[trigger] map.material(
                col,
                tile_of(origin.y as int),
            ) == 0,
    ensures
        nearest_hit(origin, direction_at(0), cutoff, map) == Some(
            RayHit {
                position: Point2D { x: (wall * ONE) as i64, y: origin.y },
                material: map.material(wall, tile_of(origin.y as int)),
            },
        ),
{
    let d = direction_at(0);
    let f = Family::Vertical;
    let row = tile_of(origin.y as int);
    lemma_axis_values();
    map.lemma_dimensions();
    assert(d.tan == Some(0i64) && d.cot is None && d.dir_x == 0 && d.dir_y == 0);
    let first = first_for(origin, d, f);
    lemma_first_step_range(origin.x as int, 0);
    let k = wall - tile_of(origin.x + first);
    assert forall|j: int| 0 <= j implies crossing(origin, d, f, j) == (
        origin.x + first + j * ONE,
        origin.y as int,
    ) && reach_squared(origin, d, f, j) == (first + j * ONE) * (first + j * ONE) by {
        assert(first * 0 == 0 && j * 0 == 0 && 0 * 0 == 0) by (nonlinear_arith);
    }
    assert forall|j: int| 0 <= j < k implies !is_hit(origin, d, cutoff, map, f, j) by {
        let col = tile_of(origin.x + first + j * ONE);
        if 0 < col {
            assert(map.material(col, row) == 0);
        }
    }
    let hit = RayHit {
        position: Point2D { x: (wall * ONE) as i64, y: origin.y },
        material: map.material(wall, row),
    };
    assert(first + k * ONE == wall * ONE - origin.x);
    lemma_lone_family_hit(hit, origin, d, cutoff, map, f, k);
}

/// A ray along the x axis toward smaller x, from a point that lies on no
/// vertical grid line further on, hits the first filled cell ahead of it in
/// its row, on that cell's near face and at exactly the distance of that
/// face.
pub proof fn lemma_cast_toward_smaller_x(origin: Point2D, cutoff: int, map: &GridMap, wall: int)
    requires
        0 < tile_of(origin.y as int) < map.rows(),
        0 <= wall < map.columns() - 1,
        (wall + 1) * ONE < origin.x,
        (origin.x - (wall + 1) * ONE) * (origin.x - (wall + 1) * ONE) <= cutoff * cutoff,
        map.material(wall, tile_of(origin.y as int)) != 0,
        forall|col: int|
            wall < col < map.columns() - 1 && (col + 1) * ONE < origin.x ==> #[trigger] map.material(
                col,
                tile_of(origin.y as int),
            ) == 0,
    ensures
        nearest_hit(origin, direction_at(HALF_TURN as int), cutoff, map) == Some(
            RayHit {
                position: Point2D { x: ((wall + 1) * ONE) as i64, y: origin.y },
                material: map.material(wall, tile_of(origin.y as int)),
            },
        ),
{
    let d = direction_at(HALF_TURN as int);
    let f = Family::Vertical;
    let row = tile_of(origin.y as int);
    lemma_axis_values();
    map.lemma_dimensions();
    assert(d.tan == Some(0i64) && d.cot is None && d.dir_x == -1 && d.dir_y == 0);
    let first = first_for(origin, d, f);
    lemma_first_step_range(origin.x as int, -1);
    let k = tile_of(origin.x - first) - (wall + 1);
    assert forall|j: int| 0 <= j implies crossing(origin, d, f, j) == (
        origin.x - first - j * ONE,
        origin.y as int,
    ) && reach_squared(origin, d, f, j) == (first + j * ONE) * (first + j * ONE) by {
        assert(first * 0 == 0 && j * 0 == 0 && 0 * 0 == 0) by (nonlinear_arith);
    }
    assert forall|j: int| 0 <= j < k implies !is_hit(origin, d, cutoff, map, f, j) by {
        let col = tile_of(origin.x - first - j * ONE);
        if 0 < col < map.columns() {
            assert(map.material(col - 1, row) == 0);
        }
    }
    let hit = RayHit {
        position: Point2D { x: ((wall + 1) * ONE) as i64, y: origin.y },
        material: map.material(wall, row),
    };
    assert(first + k * ONE == origin.x - (wall + 1) * ONE);
    lemma_lone_family_hit(hit, origin, d, cutoff, map, f, k);
}

/// A ray along the y axis toward larger y hits the first filled cell ahead
/// of it in its column, on that cell's near face and at exactly the
/// distance of that face.
pub proof fn lemma_cast_toward_larger_y(origin: Point2D, cutoff: int, map: &GridMap, wall: int)
    requires
        0 < tile_of(origin.x as int) < map.columns(),
        0 < wall < map.rows(),
        origin.y <= wall * ONE,
        (wall * ONE - origin.y) * (wall * ONE - origin.y) <= cutoff * cutoff,
        map.material(tile_of(origin.x as int), wall) != 0,
        forall|row: int|
            0 < row < wall && origin.y <= row * ONE ==> #[trigger] map.material(
                tile_of(origin.x as int),
                row,
            ) == 0,
    ensures
        nearest_hit(origin, direction_at(QUARTER_TURN as int), cutoff, map) == Some(
            RayHit {
                position: Point2D { x: origin.x, y: (wall * ONE) as i64 },
                material: map.material(tile_of(origin.x as int), wall),
            },
        ),
{
    let d = direction_at(QUARTER_TURN as int);
    let f = Family::Horizontal;
    let col = tile_of(origin.x as int);
    lemma_axis_values();
    map.lemma_dimensions();
    assert(d.cot == Some(0i64) && d.tan is None && d.dir_x == 0 && d.dir_y == 0);
    let first = first_for(origin, d, f);
    lemma_first_step_range(origin.y as int, 0);
    let k = wall - tile_of(origin.y + first);
    assert forall|j: int| 0 <= j implies crossing(origin, d, f, j) == (
        origin.x as int,
        origin.y + first + j * ONE,
    ) && reach_squared(origin, d, f, j) == (first + j * ONE) * (first + j * ONE) by {
        assert(first * 0 == 0 && j * 0 == 0 && 0 * 0 == 0) by (nonlinear_arith);
    }
    assert forall|j: int| 0 <= j < k implies !is_hit(origin, d, cutoff, map, f, j) by {
        let row = tile_of(origin.y + first + j * ONE);
        if 0 < row {
            assert(map.material(col, row) == 0);
        }
    }
    let hit = RayHit {
        position: Point2D { x: origin.x, y: (wall * ONE) as i64 },
        material: map.material(col, wall),
    };
    assert(first + k * ONE == wall * ONE - origin.y);
    lemma_lone_family_hit(hit, origin, d, cutoff, map, f, k);
}

/// A ray along the y axis toward smaller y, from a point that lies on no
/// horizontal grid line further on, hits the first filled cell ahead of it
/// in its column, on that cell's near face and at exactly the distance of
/// that face.
pub proof fn lemma_cast_toward_smaller_y(origin: Point2D, cutoff: int, map: &GridMap, wall: int)
    requires
        0 < tile_of(origin.x as int) < map.columns(),
        0 <= wall < map.rows() - 1,
        (wall + 1) * ONE < origin.y,
        (origin.y - (wall + 1) * ONE) * (origin.y - (wall + 1) * ONE) <= cutoff * cutoff,
        map.material(tile_of(origin.x as int), wall) != 0,
        forall|row: int|
            wall < row < map.rows() - 1 && (row + 1) * ONE < origin.y ==> #[trigger] map.material(
                tile_of(origin.x as int),
                row,
            ) == 0,
    ensures
        nearest_hit(origin, direction_at(THREE_QUARTER_TURN as int), cutoff, map) == Some(
            RayHit {
                position: Point2D { x: origin.x, y: ((wall + 1) * ONE) as i64 },
                material: map.material(tile_of(origin.x as int), wall),
            },
        ),
{
    let d = direction_at(THREE_QUARTER_TURN as int);
    let f = Family::Horizontal;
    let col = tile_of(origin.x as int);
    lemma_axis_values();
    map.lemma_dimensions();
    assert(d.cot == Some(0i64) && d.tan is None && d.dir_x == -1 && d.dir_y == -1);
    let first = first_for(origin, d, f);
    lemma_first_step_range(origin.y as int, -1);
    let k = tile_of(origin.y - first) - (wall + 1);
    assert forall|j: int| 0 <= j implies crossing(origin, d, f, j) == (
        origin.x as int,
        origin.y - first - j * ONE,
    ) && reach_squared(origin, d, f, j) == (first + j * ONE) * (first + j * ONE) by {
        assert(first * 0 == 0 && j * 0 == 0 && 0 * 0 == 0) by (nonlinear_arith);
    }
    assert forall|j: int| 0 <= j < k implies !is_hit(origin, d, cutoff, map, f, j) by {
        let row = tile_of(origin.y - first - j * ONE);
        if 0 < row < map.rows() {
            assert(map.material(col, row - 1) == 0);
        }
    }
    let hit = RayHit {
        position: Point2D { x: origin.x, y: ((wall + 1) * ONE) as i64 },
        material: map.material(col, wall),
    };
    assert(first + k * ONE == origin.y - (wall + 1) * ONE);
    lemma_lone_family_hit(hit, origin, d, cutoff, map, f, k);
}

/// The distance from `v` to the first grid line in direction `dir`.
fn first_step_of(v: i64, dir: i64) -> (r: i64)
    ensures
        r == first_step(v as int, dir as int),
        0 <= r <= ONE,
{
    let rem: i64 = rem_floor(v as i128, ONE as i128) as i64;
    if dir < 0 {
        if rem == 0 {
            ONE
        } else {
            rem
        }
    } else {
        if rem == 0 {
            0
        } else {
            ONE - rem
        }
    }
}

/// The sum of the squares of two distances.
fn sum_of_squares(a: i64, b: i64) -> (r: i128)
    requires
        0 <= a <= 2 * SLOPE_LIMIT,
        0 <= b <= 2 * SLOPE_LIMIT,
    ensures
        r == a * a + b * b,
{
    assert(0 <= a * a <= 0x1_0000_0000_0000_0000_0000_0000) by (nonlinear_arith)
        requires
            0 <= a <= 0x1_0000_0000_0000,
    ;
    assert(0 <= b * b <= 0x1_0000_0000_0000_0000_0000_0000) by (nonlinear_arith)
        requires
            0 <= b <= 0x1_0000_0000_0000,
    ;
    (a as i128) * (a as i128) + (b as i128) * (b as i128)
}

/// The material of the cell `dcol` columns and `drow` rows from the tile
/// that holds `(x, y)`, or 0 where that tile is not looked behind.
fn look_behind(map: &GridMap, x: i64, y: i64, dcol: i64, drow: i64) -> (m: usize)
    requires
        dcol == 0 || dcol == -1,
        drow == 0 || drow == -1,
    ensures
        m == material_behind(map, x as int, y as int, dcol as int, drow as int),
{
    let col: i128 = div_floor(x as i128, ONE as i128);
    let row: i128 = div_floor(y as i128, ONE as i128);
    if 0 < col && col < map.width() as i128 && 0 < row && row < map.height() as i128 {
        match map.cell((col + dcol as i128) as u32, (row + drow as i128) as u32) {
            Some(m) => m,
            None => 0,
        }
    } else {
        0
    }
}

/// The coordinate reached from `from` by going `v` in direction `dir`.
fn go(from: i64, dir: i64, v: i64) -> (r: i64)
    requires
        -COORD_LIMIT <= from <= COORD_LIMIT,
        0 <= v <= 4 * RANGE_LIMIT,
    ensures
        r == from + toward(dir as int, v as int),
{
    if dir < 0 {
        from - v
    } else {
        from + v
    }
}

/// Casts a ray from `origin` in direction `d` and returns the first wall it
/// meets within `cutoff`, or `None` where it meets none. Only the size of
/// `cutoff` counts: distances are compared by their squares.
pub fn cast_along(origin: Point2D, d: &RayDirection, cutoff: i64, map: &GridMap) -> (r: Option<
    RayHit,
>)
    requires
        d.wf(),
        origin.in_limits(),
        -RANGE_LIMIT <= cutoff <= RANGE_LIMIT,
    ensures
        r == nearest_hit(origin, *d, cutoff as int, map),
        describes_cast(r, origin, *d, cutoff as int, map),
        r is Some <==> exists|f: Family, k: int| is_hit(origin, *d, cutoff as int, map, f, k),
        r matches Some(hit) ==> hit.material != 0 && distance_squared(origin, hit.position)
            <= cutoff * cutoff,
{
    let reach: i64 = if cutoff < 0 {
        -cutoff
    } else {
        cutoff
    };
    assert(0 <= cutoff * cutoff <= 0x1_0000_0000_0000_0000_0000_0000) by (nonlinear_arith)
        requires
            -0x100_0000_0000 <= cutoff <= 0x100_0000_0000,
    ;
    let limit: i128 = (cutoff as i128) * (cutoff as i128);
    let v_first: i64 = first_step_of(origin.x, d.dir_x);
    let h_first: i64 = first_step_of(origin.y, d.dir_y);
    let v_on: bool = d.tan.is_some();
    let h_on: bool = d.cot.is_some();
    let v_slope: i64 = match d.tan {
        Some(t) => t,
        None => 0,
    };
    let h_slope: i64 = match d.cot {
        Some(c) => c,
        None => 0,
    };
    proof {
        lemma_offsets_grow(v_first as int, v_slope as int, 0, 0);
        lemma_offsets_grow(h_first as int, h_slope as int, 0, 0);
        assert(v_first * v_slope <= 65536 * v_slope) by (nonlinear_arith)
            requires
                0 <= v_first <= 65536,
                0 <= v_slope,
        ;
        assert(h_first * h_slope <= 65536 * h_slope) by (nonlinear_arith)
            requires
                0 <= h_first <= 65536,
                0 <= h_slope,
        ;
        assert(0 <= v_first * v_slope) by (nonlinear_arith)
            requires
                0 <= v_first,
                0 <= v_slope,
        ;
        assert(0 <= h_first * h_slope) by (nonlinear_arith)
            requires
                0 <= h_first,
                0 <= h_slope,
        ;
    }
    let mut va: i64 = v_first;
    let mut vb: i64 = (v_first * v_slope) / ONE;
    let mut ha: i64 = h_first;
    let mut hb: i64 = (h_first * h_slope) / ONE;
    let mut dv: i128 = sum_of_squares(va, vb);
    let mut dh: i128 = sum_of_squares(ha, hb);
    let ghost mut i: int = 0;
    let ghost mut j: int = 0;
    while (v_on && dv <= limit) || (h_on && dh <= limit)
        invariant
            d.wf(),
            origin.in_limits(),
            0 <= reach <= RANGE_LIMIT,
            reach == if cutoff < 0 {
                -cutoff
            } else {
                cutoff as int
            },
            limit == cutoff * cutoff,
            v_on == (d.tan is Some),
            h_on == (d.cot is Some),
            v_on ==> d.tan == Some(v_slope),
            h_on ==> d.cot == Some(h_slope),
            0 <= v_slope <= SLOPE_LIMIT,
            0 <= h_slope <= SLOPE_LIMIT,
            0 <= v_first <= ONE,
            0 <= h_first <= ONE,
            v_first == first_for(origin, *d, Family::Vertical),
            h_first == first_for(origin, *d, Family::Horizontal),
            0 <= i,
            0 <= j,
            va == along(v_first as int, i),
            vb == across(v_first as int, v_slope as int, i),
            ha == along(h_first as int, j),
            hb == across(h_first as int, h_slope as int, j),
            0 <= va <= reach + ONE,
            0 <= vb <= reach + SLOPE_LIMIT,
            0 <= ha <= reach + ONE,
            0 <= hb <= reach + SLOPE_LIMIT,
            dv == va * va + vb * vb,
            dh == ha * ha + hb * hb,
            forall|k: int|
                0 <= k < i ==> !is_hit(origin, *d, cutoff as int, map, Family::Vertical, k),
            forall|k: int|
                0 <= k < j ==> !is_hit(origin, *d, cutoff as int, map, Family::Horizontal, k),
        decreases (reach + ONE - va) + (reach + ONE - ha),
    {
        if v_on && (!h_on || dv <= dh) {
            proof {
                lemma_within_range(va as int, vb as int, cutoff as int, reach as int);
                lemma_offsets_grow(v_first as int, v_slope as int, i, i);
            }
            let x: i64 = go(origin.x, d.dir_x, va);
            let y: i64 = go(origin.y, d.dir_y, vb);
            let m: usize = look_behind(map, x, y, d.dir_x, 0);
            if m != 0 {
                let hit = RayHit { position: Point2D { x, y }, material: m };
                proof {
                    assert(is_hit(origin, *d, cutoff as int, map, Family::Vertical, i));
                    assert forall|g: Family, q: int| #[trigger]
                        is_hit(origin, *d, cutoff as int, map, g, q) implies comes_first(
                        Family::Vertical,
                        reach_squared(origin, *d, Family::Vertical, i),
                        g,
                        reach_squared(origin, *d, g, q),
                    ) by {
                        match g {
                            Family::Vertical => {
                                if q > i {
                                    lemma_reach_grows(origin, *d, g, i, q);
                                }
                            },
                            Family::Horizontal => {
                                if q > j {
                                    lemma_reach_grows(origin, *d, g, j, q);
                                }
                            },
                        }
                    }
                    lemma_reach_is_distance(origin, *d, Family::Vertical, i);
                    lemma_winner_is_nearest(
                        hit,
                        origin,
                        *d,
                        cutoff as int,
                        map,
                        Family::Vertical,
                        i,
                    );
                }
                return Some(hit);
            }
            va = va + ONE;
            vb = vb + v_slope;
            dv = sum_of_squares(va, vb);
            proof {
                i = i + 1;
            }
        } else {
            proof {
                lemma_within_range(ha as int, hb as int, cutoff as int, reach as int);
                lemma_offsets_grow(h_first as int, h_slope as int, j, j);
            }
            let x: i64 = go(origin.x, d.dir_x, hb);
            let y: i64 = go(origin.y, d.dir_y, ha);
            let m: usize = look_behind(map, x, y, 0, d.dir_y);
            if m != 0 {
                let hit = RayHit { position: Point2D { x, y }, material: m };
                proof {
                    assert(is_hit(origin, *d, cutoff as int, map, Family::Horizontal, j));
                    assert forall|g: Family, q: int| #[trigger]
                        is_hit(origin, *d, cutoff as int, map, g, q) implies comes_first(
                        Family::Horizontal,
                        reach_squared(origin, *d, Family::Horizontal, j),
                        g,
                        reach_squared(origin, *d, g, q),
                    ) by {
                        match g {
                            Family::Vertical => {
                                if q > i {
                                    lemma_reach_grows(origin, *d, g, i, q);
                                }
                            },
                            Family::Horizontal => {
                                if q > j {
                                    lemma_reach_grows(origin, *d, g, j, q);
                                }
                            },
                        }
                    }
                    lemma_reach_is_distance(origin, *d, Family::Horizontal, j);
                    lemma_winner_is_nearest(
                        hit,
                        origin,
                        *d,
                        cutoff as int,
                        map,
                        Family::Horizontal,
                        j,
                    );
                }
                return Some(hit);
            }
            ha = ha + ONE;
            hb = hb + h_slope;
            dh = sum_of_squares(ha, hb);
            proof {
                j = j + 1;
            }
        }
    }
    proof {
        assert forall|f: Family, k: int| !is_hit(origin, *d, cutoff as int, map, f, k) by {
            match f {
                Family::Vertical => {
                    if k > i && v_on {
                        lemma_reach_grows(origin, *d, f, i, k);
                    }
                },
                Family::Horizontal => {
                    if k > j && h_on {
                        lemma_reach_grows(origin, *d, f, j, k);
                    }
                },
            }
        }
        lemma_no_hit_misses(origin, *d, cutoff as int, map);
    }
    None
}

/// Casts a ray from `origin` at `angle`, an angle in fixed-point degrees,
/// and returns the first wall it meets within `cutoff`.
pub fn cast(origin: Point2D, angle: i64, cutoff: i64, map: &GridMap) -> (r: Option<RayHit>)
    requires
        origin.in_limits(),
        -RANGE_LIMIT <= cutoff <= RANGE_LIMIT,
    ensures
        r == nearest_hit(origin, direction_at(angle as int), cutoff as int, map),
        describes_cast(r, origin, direction_at(angle as int), cutoff as int, map),
        r is Some <==> exists|f: Family, k: int|
            is_hit(origin, direction_at(angle as int), cutoff as int, map, f, k),
        r matches Some(hit) ==> hit.material != 0 && distance_squared(origin, hit.position)
            <= cutoff * cutoff,
{
    let d: RayDirection = direction_of(angle);
    cast_along(origin, &d, cutoff, map)
}

} // verus!
