//! The direction of a ray: which way it steps through the grid, and how steeply.

use vstd::prelude::*;
use crate::fixed::ONE;
use crate::fixed::magnitude;
use crate::trig::cosine;
use crate::trig::lemma_cosine_sign;
use crate::trig::lemma_sine_sign;
use crate::trig::sin_cos;
use crate::trig::sine;
use crate::trig::FULL_TURN;
use crate::trig::HALF_TURN;
use crate::trig::QUARTER_TURN;
use crate::trig::THREE_QUARTER_TURN;
use crate::trig::TRIG_LIMIT;

verus! {

/// The steepest slope a direction can have: the largest sine over the
/// smallest cosine that is not zero.
pub const SLOPE_LIMIT: i64 = 70368744505344;

/// The direction of a ray.
///
/// `dir_x` and `dir_y` say which way the ray steps along each axis: -1 toward
/// smaller coordinates, 0 toward larger ones. `tan` is the size of the
/// tangent of the ray's angle, the distance travelled in y per tile of x,
/// and `cot` the size of its cotangent; each is a fixed-point value that is
/// never negative, since the step directions carry the signs. `tan` is
/// `None` for a ray that runs parallel to the y axis, which crosses no
/// vertical grid line, and `cot` is `None` for one that runs parallel to
/// the x axis.
#[derive(Clone, Copy, Debug)]
pub struct RayDirection {
    pub dir_x: i64,
    pub dir_y: i64,
    pub tan: Option<i64>,
    pub cot: Option<i64>,
}

impl RayDirection {
    /// The step directions are -1 or 0, and the slopes lie in
    /// `0..=SLOPE_LIMIT`.
    pub open spec fn wf(&self) -> bool {
        &&& self.dir_x == 0 || self.dir_x == -1
        &&& self.dir_y == 0 || self.dir_y == -1
        &&& self.tan matches Some(t) ==> 0 <= t <= SLOPE_LIMIT
        &&& self.cot matches Some(c) ==> 0 <= c <= SLOPE_LIMIT
    }

    /// Says whether the direction is well formed.
    pub fn is_wf(&self) -> (b: bool)
        ensures
            b == self.wf(),
    {
        let steps: bool = (self.dir_x == 0 || self.dir_x == -1) && (self.dir_y == 0 || self.dir_y
            == -1);
        let tan_ok: bool = match self.tan {
            Some(t) => 0 <= t && t <= SLOPE_LIMIT,
            None => true,
        };
        let cot_ok: bool = match self.cot {
            Some(c) => 0 <= c && c <= SLOPE_LIMIT,
            None => true,
        };
        steps && tan_ok && cot_ok
    }
}

/// The step directions of an angle, by the quarter turn it falls into: each
/// quarter is open at its start and closed at its end, and any angle
/// outside the last three steps toward larger coordinates on both axes.
pub open spec fn step_of(angle: int) -> (int, int) {
    if QUARTER_TURN < angle <= HALF_TURN {
        (-1, 0)
    } else if HALF_TURN < angle <= THREE_QUARTER_TURN {
        (-1, -1)
    } else if THREE_QUARTER_TURN < angle <= FULL_TURN {
        (0, -1)
    } else {
        (0, 0)
    }
}

/// The size of `rise / run` in fixed point, rounded down; `None` where `run`
/// is zero.
pub open spec fn slope_of(rise: int, run: int) -> Option<i64> {
    if run == 0 {
        None
    } else {
        Some(((magnitude(rise) * ONE) / magnitude(run)) as i64)
    }
}

/// The direction of a ray at `angle`.
pub open spec fn direction_at(angle: int) -> RayDirection {
    RayDirection {
        dir_x: step_of(angle).0 as i64,
        dir_y: step_of(angle).1 as i64,
        tan: slope_of(sine(angle), cosine(angle)),
        cot: slope_of(cosine(angle), sine(angle)),
    }
}

/// Within a full turn the step directions agree with the signs of the
/// cosine and the sine: a ray steps toward smaller x only where its cosine
/// is not positive and toward larger x only where it is not negative, and
/// likewise along y by its sine.
pub proof fn lemma_steps_follow_signs(angle: int)
    requires
        0 <= angle < FULL_TURN,
    ensures
        step_of(angle).0 == -1 ==> cosine(angle) <= 0,
        step_of(angle).0 == 0 ==> cosine(angle) >= 0,
        step_of(angle).1 == -1 ==> sine(angle) <= 0,
        step_of(angle).1 == 0 ==> sine(angle) >= 0,
{
    lemma_sine_sign(angle);
    lemma_cosine_sign(angle);
}

/// Computes the step directions of an angle.
pub fn step_direction(angle: i64) -> (d: (i64, i64))
    ensures
        d.0 == step_of(angle as int).0,
        d.1 == step_of(angle as int).1,
{
    if QUARTER_TURN < angle && angle <= HALF_TURN {
        (-1, 0)
    } else if HALF_TURN < angle && angle <= THREE_QUARTER_TURN {
        (-1, -1)
    } else if THREE_QUARTER_TURN < angle && angle <= FULL_TURN {
        (0, -1)
    } else {
        (0, 0)
    }
}

/// Computes the size of `rise / run` for two values that are at most
/// `TRIG_LIMIT` in size.
pub fn slope(rise: i64, run: i64) -> (s: Option<i64>)
    requires
        -TRIG_LIMIT <= rise <= TRIG_LIMIT,
        -TRIG_LIMIT <= run <= TRIG_LIMIT,
    ensures
        s == slope_of(rise as int, run as int),
        s matches Some(v) ==> 0 <= v <= SLOPE_LIMIT,
{
    if run == 0 {
        None
    } else {
        let up: i64 = if rise < 0 {
            -rise
        } else {
            rise
        };
        let along: i64 = if run < 0 {
            -run
        } else {
            run
        };
        let scaled: i64 = up * ONE;
        let q: i64 = scaled / along;
        proof {
            vstd::arithmetic::div_mod::lemma_div_is_ordered(
                scaled as int,
                70368744505344,
                along as int,
            );
            vstd::arithmetic::div_mod::lemma_div_is_ordered(
                70368744505344,
                70368744505344 * along,
                along as int,
            );
            vstd::arithmetic::div_mod::lemma_div_multiples_vanish(70368744505344, along as int);
            assert(along * 70368744505344 == 70368744505344 * along);
            vstd::arithmetic::div_mod::lemma_div_pos_is_pos(scaled as int, along as int);
        }
        Some(q)
    }
}

/// Computes the direction of a ray at `angle`, an angle in fixed-point
/// degrees.
pub fn direction_of(angle: i64) -> (d: RayDirection)
    ensures
        d == direction_at(angle as int),
        d.wf(),
{
    let steps: (i64, i64) = step_direction(angle);
    let turn: (i64, i64) = sin_cos(angle);
    RayDirection {
        dir_x: steps.0,
        dir_y: steps.1,
        tan: slope(turn.0, turn.1),
        cot: slope(turn.1, turn.0),
    }
}

} // verus!
