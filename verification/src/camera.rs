//! The camera: where the viewer stands and looks, and how a tick of time
//! moves it.

use vstd::prelude::*;
use crate::caster::Point2D;
use crate::fixed::clamp;
use crate::fixed::div_floor;
use crate::fixed::rem_floor;
use crate::fixed::ONE;
use crate::grid::GridMap;
use crate::trig::cos_deg;
use crate::trig::cosine;
use crate::trig::lemma_normalize_keeps_direction;
use crate::trig::lemma_same_direction;
use crate::trig::normalize_angle;
use crate::trig::sin_deg;
use crate::trig::sine;
use crate::trig::FULL_TURN;
use crate::trig::QUARTER_TURN;
use crate::trig::TRIG_LIMIT;

verus! {

/// A turning stick closer to its rest position than this is taken to be at
/// rest.
pub const TURN_DEADZONE: i16 = 2000;

/// A walking stick closer to its rest position than this is taken to be at
/// rest.
pub const MOVE_DEADZONE: i16 = 3000;

/// The largest size of a facing angle that `advance` accepts.
pub const FACING_LIMIT: i64 = 4611686018427387904;

/// The longest tick, in milliseconds, in which no input can turn the camera
/// by more than a full turn.
pub const STEADY_TICK_MS: u32 = 900;

/// What the viewer wants to do: three signed rates, each zero when there is
/// no input. A positive rotation turns toward larger angles, a positive
/// forward rate walks the way the camera faces, and a positive strafe rate
/// walks a quarter turn further on.
#[derive(Clone, Copy, Debug, PartialEq, Eq, Structural)]
pub struct InputIntent {
    pub rotation: i16,
    pub forward: i16,
    pub strafe: i16,
}

/// The raw positions of three analog axes. `walk` is negative when the
/// stick is pushed forward.
#[derive(Clone, Copy, Debug, PartialEq, Eq, Structural)]
pub struct AnalogSticks {
    pub turn: i16,
    pub walk: i16,
    pub strafe: i16,
}

/// The six motions that a key can ask for.
#[derive(Clone, Copy, Debug, PartialEq, Eq, Structural)]
pub enum Motion {
    TurnLeft,
    TurnRight,
    Forward,
    Backward,
    StrafeLeft,
    StrafeRight,
}

/// The pose of the camera and the intent that drives it. `facing` and `fov`
/// are angles in fixed-point degrees.
#[derive(Clone, Copy, Debug, PartialEq, Eq, Structural)]
pub struct CameraState {
    pub position: Point2D,
    pub facing: i64,
    pub fov: i64,
    pub intent: InputIntent,
}

impl InputIntent {
    /// The intent after the key for `motion` went down: that motion at full
    /// rate.
    pub open spec fn pressed(self, motion: Motion) -> InputIntent {
        match motion {
            Motion::TurnLeft => InputIntent {
                rotation: i16::MIN,
                forward: self.forward,
                strafe: self.strafe,
            },
            Motion::TurnRight => InputIntent {
                rotation: i16::MAX,
                forward: self.forward,
                strafe: self.strafe,
            },
            Motion::Forward => InputIntent {
                rotation: self.rotation,
                forward: i16::MAX,
                strafe: self.strafe,
            },
            Motion::Backward => InputIntent {
                rotation: self.rotation,
                forward: i16::MIN,
                strafe: self.strafe,
            },
            Motion::StrafeLeft => InputIntent {
                rotation: self.rotation,
                forward: self.forward,
                strafe: i16::MIN,
            },
            Motion::StrafeRight => InputIntent {
                rotation: self.rotation,
                forward: self.forward,
                strafe: i16::MAX,
            },
        }
    }

    /// The intent after the key for `motion` came up: the rate it governs
    /// returns to zero if it still points that key's way, and is left alone
    /// if the opposite key has taken over since.
    pub open spec fn released(self, motion: Motion) -> InputIntent {
        match motion {
            Motion::TurnLeft => InputIntent {
                rotation: if self.rotation < 0 {
                    0
                } else {
                    self.rotation
                },
                forward: self.forward,
                strafe: self.strafe,
            },
            Motion::TurnRight => InputIntent {
                rotation: if self.rotation > 0 {
                    0
                } else {
                    self.rotation
                },
                forward: self.forward,
                strafe: self.strafe,
            },
            Motion::Forward => InputIntent {
                rotation: self.rotation,
                forward: if self.forward > 0 {
                    0
                } else {
                    self.forward
                },
                strafe: self.strafe,
            },
            Motion::Backward => InputIntent {
                rotation: self.rotation,
                forward: if self.forward < 0 {
                    0
                } else {
                    self.forward
                },
                strafe: self.strafe,
            },
            Motion::StrafeLeft => InputIntent {
                rotation: self.rotation,
                forward: self.forward,
                strafe: if self.strafe < 0 {
                    0
                } else {
                    self.strafe
                },
            },
            Motion::StrafeRight => InputIntent {
                rotation: self.rotation,
                forward: self.forward,
                strafe: if self.strafe > 0 {
                    0
                } else {
                    self.strafe
                },
            },
        }
    }

    /// The intent with no input.
    pub fn idle() -> (r: InputIntent)
        ensures
            r == (InputIntent { rotation: 0, forward: 0, strafe: 0 }),
    {
        InputIntent { rotation: 0, forward: 0, strafe: 0 }
    }

    /// Takes note that the key for `motion` went down.
    pub fn press(self, motion: Motion) -> (r: InputIntent)
        ensures
            r == self.pressed(motion),
    {
        let mut next = self;
        match motion {
            Motion::TurnLeft => {
                next.rotation = i16::MIN;
            },
            Motion::TurnRight => {
                next.rotation = i16::MAX;
            },
            Motion::Forward => {
                next.forward = i16::MAX;
            },
            Motion::Backward => {
                next.forward = i16::MIN;
            },
            Motion::StrafeLeft => {
                next.strafe = i16::MIN;
            },
            Motion::StrafeRight => {
                next.strafe = i16::MAX;
            },
        }
        next
    }

    /// Takes note that the key for `motion` came up.
    pub fn release(self, motion: Motion) -> (r: InputIntent)
        ensures
            r == self.released(motion),
    {
        let mut next = self;
        match motion {
            Motion::TurnLeft => {
                if next.rotation < 0 {
                    next.rotation = 0;
                }
            },
            Motion::TurnRight => {
                if next.rotation > 0 {
                    next.rotation = 0;
                }
            },
            Motion::Forward => {
                if next.forward > 0 {
                    next.forward = 0;
                }
            },
            Motion::Backward => {
                if next.forward < 0 {
                    next.forward = 0;
                }
            },
            Motion::StrafeLeft => {
                if next.strafe < 0 {
                    next.strafe = 0;
                }
            },
            Motion::StrafeRight => {
                if next.strafe > 0 {
                    next.strafe = 0;
                }
            },
        }
        next
    }
}

/// The sticks at rest, which stand for a missing controller.
pub open spec fn sticks_or_rest(sticks: Option<AnalogSticks>) -> AnalogSticks {
    match sticks {
        Some(s) => s,
        None => AnalogSticks { turn: 0, walk: 0, strafe: 0 },
    }
}

/// An axis value, or 0 where it lies strictly within the dead zone.
pub open spec fn live(value: int, deadzone: int) -> int {
    if -deadzone < value < deadzone {
        0
    } else {
        value
    }
}

/// The angle turned in `elapsed` milliseconds at `rate`: six millionths of a
/// degree per unit of rate and millisecond, rounded down.
pub open spec fn turn_by(rate: int, elapsed: int) -> int {
    (rate * elapsed * 6144) / 15625
}

/// The distance walked in `elapsed` milliseconds at `rate` along an axis on
/// which the heading has the component `unit`, a sine or cosine: eighty
/// billionths of a tile per unit of rate and millisecond, rounded down.
pub open spec fn shift_by(unit: int, rate: int, elapsed: int) -> int {
    (unit * rate * elapsed) / 204800000000
}

/// The facing angle after the rotations of one tick, before it is wrapped.
pub open spec fn turned(facing: int, intent: InputIntent, sticks: AnalogSticks, elapsed: int) -> int {
    facing + turn_by(live(sticks.turn as int, TURN_DEADZONE as int), elapsed) + turn_by(
        intent.rotation as int,
        elapsed,
    )
}

/// One wrap by a full turn toward `0..FULL_TURN`.
pub open spec fn wrap_once(angle: int) -> int {
    if angle >= FULL_TURN {
        angle - FULL_TURN
    } else if angle < 0 {
        angle + FULL_TURN
    } else {
        angle
    }
}

/// The coordinate `from` after the walks of one tick along an axis, where
/// the heading has the component `ahead` on that axis and the direction a
/// quarter turn further on has the component `aside`. The walking stick
/// counts backwards: pushed forward it reads negative.
pub open spec fn walked(
    from: int,
    ahead: int,
    aside: int,
    intent: InputIntent,
    sticks: AnalogSticks,
    elapsed: int,
) -> int {
    from - shift_by(ahead, live(sticks.walk as int, MOVE_DEADZONE as int), elapsed) + shift_by(
        aside,
        live(sticks.strafe as int, MOVE_DEADZONE as int),
        elapsed,
    ) + shift_by(ahead, intent.forward as int, elapsed) + shift_by(
        aside,
        intent.strafe as int,
        elapsed,
    )
}

/// The x coordinate after one tick, before it is clamped to the grid.
pub open spec fn moved_x(camera: CameraState, sticks: AnalogSticks, elapsed: int) -> int {
    let heading = turned(camera.facing as int, camera.intent, sticks, elapsed);
    walked(
        camera.position.x as int,
        cosine(heading),
        cosine(heading + QUARTER_TURN),
        camera.intent,
        sticks,
        elapsed,
    )
}

/// The y coordinate after one tick, before it is clamped to the grid.
pub open spec fn moved_y(camera: CameraState, sticks: AnalogSticks, elapsed: int) -> int {
    let heading = turned(camera.facing as int, camera.intent, sticks, elapsed);
    walked(
        camera.position.y as int,
        sine(heading),
        sine(heading + QUARTER_TURN),
        camera.intent,
        sticks,
        elapsed,
    )
}

/// The camera after one tick of `elapsed` milliseconds on `map`.
pub open spec fn advanced(
    camera: CameraState,
    sticks: AnalogSticks,
    elapsed: int,
    map: &GridMap,
) -> CameraState {
    CameraState {
        position: Point2D {
            x: clamp(moved_x(camera, sticks, elapsed), 0, map.columns() * ONE) as i64,
            y: clamp(moved_y(camera, sticks, elapsed), 0, map.rows() * ONE) as i64,
        },
        facing: wrap_once(turned(camera.facing as int, camera.intent, sticks, elapsed)) as i64,
        fov: camera.fov,
        intent: camera.intent,
    }
}

/// In a tick of at most `STEADY_TICK_MS`, one input turns the camera by less
/// than half a turn.
pub proof fn lemma_turn_is_small(rate: int, elapsed: int)
    requires
        -32768 <= rate <= 32767,
        0 <= elapsed <= STEADY_TICK_MS,
    ensures
        -11796480 < turn_by(rate, elapsed) < 11796480,
{
    assert(-29491200 <= rate * elapsed <= 29491200) by (nonlinear_arith)
        requires
            -32768 <= rate <= 32767,
            0 <= elapsed <= 900,
    ;
}

/// A facing angle in `0..FULL_TURN` is still there after a tick of at most
/// `STEADY_TICK_MS`, whatever the inputs.
pub proof fn lemma_facing_stays_normal(
    facing: int,
    intent: InputIntent,
    sticks: AnalogSticks,
    elapsed: int,
)
    requires
        0 <= facing < FULL_TURN,
        0 <= elapsed <= STEADY_TICK_MS,
    ensures
        0 <= wrap_once(turned(facing, intent, sticks, elapsed)) < FULL_TURN,
{
    lemma_turn_is_small(live(sticks.turn as int, TURN_DEADZONE as int), elapsed);
    lemma_turn_is_small(intent.rotation as int, elapsed);
}

/// Any angle within one turn of `0..FULL_TURN` is brought into it by one
/// wrap, and no other is.
pub proof fn lemma_wrap_once_range(angle: int)
    ensures
        0 <= wrap_once(angle) < FULL_TURN <==> -FULL_TURN <= angle < 2 * FULL_TURN,
        normalize_angle(wrap_once(angle)) == normalize_angle(angle),
{
    let m = FULL_TURN as int;
    if angle >= FULL_TURN {
        vstd::arithmetic::div_mod::lemma_mod_multiples_vanish(-1, angle, m);
    } else if angle < 0 {
        vstd::arithmetic::div_mod::lemma_mod_multiples_vanish(1, angle, m);
    }
}

/// The position after a tick lies on the grid, whatever the inputs.
pub proof fn lemma_position_stays_on_grid(
    camera: CameraState,
    sticks: AnalogSticks,
    elapsed: int,
    map: &GridMap,
)
    ensures
        0 <= advanced(camera, sticks, elapsed, map).position.x <= map.columns() * ONE,
        0 <= advanced(camera, sticks, elapsed, map).position.y <= map.rows() * ONE,
        advanced(camera, sticks, elapsed, map).position.in_limits(),
{
    map.lemma_dimensions();
}

/// An axis value, or 0 where it lies strictly within the dead zone.
fn live_axis(value: i16, deadzone: i16) -> (r: i16)
    requires
        0 < deadzone,
    ensures
        r == live(value as int, deadzone as int),
{
    if -deadzone < value && value < deadzone {
        0
    } else {
        value
    }
}

/// The angle turned in `elapsed` milliseconds at `rate`.
fn turn_step(rate: i16, elapsed: u32) -> (r: i128)
    ensures
        r == turn_by(rate as int, elapsed as int),
        -0x4000_0000_0000 <= r <= 0x4000_0000_0000,
{
    assert(-0x8000_0000_0000 <= rate * elapsed <= 0x8000_0000_0000) by (nonlinear_arith)
        requires
            -32768 <= rate <= 32767,
            0 <= elapsed <= 0xffff_ffff,
    ;
    let p: i128 = (rate as i128) * (elapsed as i128);
    div_floor(p * 6144, 15625)
}

/// The distance walked in `elapsed` milliseconds at `rate` along an axis on
/// which the heading has the component `unit`.
fn shift_step(unit: i64, rate: i16, elapsed: u32) -> (r: i128)
    requires
        -TRIG_LIMIT <= unit <= TRIG_LIMIT,
    ensures
        r == shift_by(unit as int, rate as int, elapsed as int),
        -0x100_0000_0000 <= r <= 0x100_0000_0000,
{
    assert(-35184372252672 <= unit * rate <= 35184372252672) by (nonlinear_arith)
        requires
            -1073741829 <= unit <= 1073741829,
            -32768 <= rate <= 32767,
    ;
    let p: i128 = (unit as i128) * (rate as i128);
    assert(-35184372252672 * 4294967295 <= p * elapsed <= 35184372252672 * 4294967295)
        by (nonlinear_arith)
        requires
            -35184372252672 <= p <= 35184372252672,
            0 <= elapsed <= 4294967295,
    ;
    div_floor(p * (elapsed as i128), 204800000000)
}

/// `v`, or the nearer end of `0..=high` where it lies outside.
fn clamp_to(v: i128, high: i64) -> (r: i64)
    requires
        0 <= high,
    ensures
        r == clamp(v as int, 0, high as int),
{
    if v < 0 {
        0
    } else if v > high as i128 {
        high
    } else {
        v as i64
    }
}

/// The facing angle after the rotations of one tick, before it is wrapped.
fn heading_after(facing: i64, intent: &InputIntent, sticks: &AnalogSticks, elapsed: u32) -> (r:
    i128)
    ensures
        r == turned(facing as int, *intent, *sticks, elapsed as int),
        facing - 0x8000_0000_0000 <= r <= facing + 0x8000_0000_0000,
{
    facing as i128 + turn_step(live_axis(sticks.turn, TURN_DEADZONE), elapsed) + turn_step(
        intent.rotation,
        elapsed,
    )
}

/// A coordinate after the walks of one tick, before it is clamped.
fn walk_axis(
    from: i64,
    ahead: i64,
    aside: i64,
    intent: &InputIntent,
    sticks: &AnalogSticks,
    elapsed: u32,
) -> (r: i128)
    requires
        -TRIG_LIMIT <= ahead <= TRIG_LIMIT,
        -TRIG_LIMIT <= aside <= TRIG_LIMIT,
    ensures
        r == walked(from as int, ahead as int, aside as int, *intent, *sticks, elapsed as int),
{
    let walk: i16 = live_axis(sticks.walk, MOVE_DEADZONE);
    let strafe: i16 = live_axis(sticks.strafe, MOVE_DEADZONE);
    from as i128 - shift_step(ahead, walk, elapsed) + shift_step(aside, strafe, elapsed)
        + shift_step(ahead, intent.forward, elapsed) + shift_step(aside, intent.strafe, elapsed)
}

impl CameraState {
    /// The facing angle is at most `FACING_LIMIT` in size.
    pub open spec fn steerable(&self) -> bool {
        -FACING_LIMIT <= self.facing <= FACING_LIMIT
    }

    /// Says whether the facing angle is at most `FACING_LIMIT` in size.
    pub fn is_steerable(&self) -> (b: bool)
        ensures
            b == self.steerable(),
    {
        -FACING_LIMIT <= self.facing && self.facing <= FACING_LIMIT
    }

    /// Moves the camera through one tick of `elapsed_ms` milliseconds.
    ///
    /// The camera first turns, by the turning stick and by the rotation
    /// rate. Then it walks: along the new heading by the walking stick and
    /// the forward rate, and a quarter turn aside of it by the strafing
    /// stick and the strafe rate. Last, the facing angle is wrapped once by
    /// a full turn toward `0..FULL_TURN` and the position is clamped to the
    /// grid.
    pub fn advance(&mut self, sticks: Option<AnalogSticks>, elapsed_ms: u32, map: &GridMap)
        requires
            old(self).steerable(),
        ensures
            *final(self) == advanced(*old(self), sticks_or_rest(sticks), elapsed_ms as int, map),
            0 <= final(self).position.x <= map.columns() * ONE,
            0 <= final(self).position.y <= map.rows() * ONE,
            final(self).position.in_limits(),
            0 <= old(self).facing < FULL_TURN && elapsed_ms <= STEADY_TICK_MS ==> 0 <= final(self).facing
                < FULL_TURN,
            0 <= final(self).facing < FULL_TURN <==> -FULL_TURN <= turned(
                old(self).facing as int,
                old(self).intent,
                sticks_or_rest(sticks),
                elapsed_ms as int,
            ) < 2 * FULL_TURN,
    {
        let s: AnalogSticks = match sticks {
            Some(s) => s,
            None => AnalogSticks { turn: 0, walk: 0, strafe: 0 },
        };
        let heading: i128 = heading_after(self.facing, &self.intent, &s, elapsed_ms);
        let h: i64 = rem_floor(heading, FULL_TURN as i128) as i64;
        proof {
            lemma_normalize_keeps_direction(heading as int);
            lemma_same_direction(h + QUARTER_TURN, heading + QUARTER_TURN);
            lemma_wrap_once_range(heading as int);
            map.lemma_dimensions();
            if 0 <= self.facing < FULL_TURN && elapsed_ms <= STEADY_TICK_MS {
                lemma_facing_stays_normal(self.facing as int, self.intent, s, elapsed_ms as int);
            }
        }
        let x: i128 = walk_axis(
            self.position.x,
            cos_deg(h),
            cos_deg(h + QUARTER_TURN),
            &self.intent,
            &s,
            elapsed_ms,
        );
        let y: i128 = walk_axis(
            self.position.y,
            sin_deg(h),
            sin_deg(h + QUARTER_TURN),
            &self.intent,
            &s,
            elapsed_ms,
        );
        let wrapped: i128 = if heading >= FULL_TURN as i128 {
            heading - FULL_TURN as i128
        } else if heading < 0 {
            heading + FULL_TURN as i128
        } else {
            heading
        };
        self.facing = wrapped as i64;
        self.position = Point2D {
            x: clamp_to(x, map.width() as i64 * ONE),
            y: clamp_to(y, map.height() as i64 * ONE),
        };
    }
}

} // verus!
