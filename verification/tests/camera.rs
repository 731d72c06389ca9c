use raycaster::camera::{
    AnalogSticks, CameraState, InputIntent, Motion, FACING_LIMIT, MOVE_DEADZONE, STEADY_TICK_MS,
    TURN_DEADZONE,
};
use raycaster::caster::Point2D;
use raycaster::fixed::ONE;
use raycaster::grid::GridMap;
use raycaster::trig::FULL_TURN;

fn field() -> GridMap {
    GridMap::new(vec![vec![0; 20]; 17], 20, 17).unwrap()
}

fn camera(x: i64, y: i64, facing: i64, rotation: i16, forward: i16, strafe: i16) -> CameraState {
    CameraState {
        position: Point2D { x, y },
        facing,
        fov: 75 * ONE,
        intent: InputIntent { rotation, forward, strafe },
    }
}

const CENTRE: i64 = 557056;

#[test]
fn idle_camera_stays_put() {
    let mut cam = camera(CENTRE, CENTRE, 0, 0, 0, 0);
    let before = cam;
    cam.advance(None, 16, &field());
    assert_eq!(cam, before);
    cam.advance(Some(AnalogSticks { turn: 0, walk: 0, strafe: 0 }), u32::MAX, &field());
    assert_eq!(cam, before);
}

#[test]
fn forward_rate_walks_along_the_heading() {
    let mut cam = camera(CENTRE, CENTRE, 0, 0, 32767, 0);
    cam.advance(None, 1000, &field());
    assert_eq!(cam.position, Point2D { x: 728849, y: CENTRE });
    assert_eq!(cam.facing, 0);
    let real = 8.5 + 32767.0 * 1000.0 * 0.00008 * 0.001;
    assert!((cam.position.x as f64 / ONE as f64 - real).abs() < 1e-4);

    let mut cam = camera(CENTRE, CENTRE, 30 * ONE, 0, 32767, 0);
    cam.advance(None, 1000, &field());
    assert_eq!(cam.position, Point2D { x: 705833, y: 642952 });
    let step = 32767.0 * 1000.0 * 0.00008 * 0.001;
    assert!((cam.position.x as f64 / ONE as f64 - (8.5 + step * 30f64.to_radians().cos())).abs() < 1e-3);
    assert!((cam.position.y as f64 / ONE as f64 - (8.5 + step * 30f64.to_radians().sin())).abs() < 1e-3);
}

#[test]
fn strafe_rate_walks_a_quarter_turn_aside() {
    let mut cam = camera(CENTRE, CENTRE, 0, 0, 0, 32767);
    cam.advance(None, 1000, &field());
    assert_eq!(cam.position, Point2D { x: CENTRE, y: 728849 });
}

#[test]
fn rotation_rate_turns_and_wraps_once() {
    let mut cam = camera(CENTRE, CENTRE, 0, 32767, 0, 0);
    cam.advance(None, 16, &field());
    assert_eq!(cam.facing, 206152);
    let real = 32767.0 * 0.0003 * 20.0 * 0.001 * 16.0;
    assert!((cam.facing as f64 / ONE as f64 - real).abs() < 1e-4);

    let mut cam = camera(CENTRE, CENTRE, 0, -32768, 0, 0);
    cam.advance(None, 16, &field());
    assert_eq!(cam.facing, 23386801);
    assert!(0 <= cam.facing && cam.facing < FULL_TURN);
}

#[test]
fn walking_uses_the_heading_after_the_turn() {
    let mut cam = camera(CENTRE, CENTRE, 0, 32767, 32767, 0);
    cam.advance(None, 400, &field());
    let turn = 32767.0 * 0.0003 * 20.0 * 0.001 * 400.0;
    let step = 32767.0 * 400.0 * 0.00008 * 0.001;
    assert!((cam.facing as f64 / ONE as f64 - turn).abs() < 1e-3);
    assert!((cam.position.x as f64 / ONE as f64 - (8.5 + step * turn.to_radians().cos())).abs() < 1e-3);
    assert!((cam.position.y as f64 / ONE as f64 - (8.5 + step * turn.to_radians().sin())).abs() < 1e-3);
}

#[test]
fn position_is_clamped_to_the_grid() {
    let mut cam = camera(ONE / 2, CENTRE, 0, 0, -32768, 0);
    cam.advance(None, 1000, &field());
    assert_eq!(cam.position, Point2D { x: 0, y: CENTRE });

    let mut cam = camera(19 * ONE + ONE / 2, ONE / 2, 0, 0, 32767, -32768);
    cam.advance(None, 1000, &field());
    assert_eq!(cam.position, Point2D { x: 20 * ONE, y: 0 });

    let mut cam = camera(i64::MAX, i64::MIN, 0, 0, 0, 0);
    cam.advance(None, 0, &field());
    assert_eq!(cam.position, Point2D { x: 20 * ONE, y: 0 });

    let mut cam = camera(CENTRE, CENTRE, 45 * ONE, 0, 32767, 0);
    cam.advance(None, u32::MAX, &field());
    assert_eq!(cam.position, Point2D { x: 20 * ONE, y: 17 * ONE });
}

#[test]
fn position_stays_on_the_grid_for_any_motion() {
    let map = field();
    let rates: [i16; 5] = [i16::MIN, -1000, 0, 1000, i16::MAX];
    let mut cam = camera(CENTRE, CENTRE, 0, 0, 0, 0);
    for (n, forward) in rates.iter().enumerate() {
        for strafe in rates {
            for elapsed in [0u32, 1, 16, 900, 60000] {
                cam.intent = InputIntent { rotation: rates[(n + 2) % 5], forward: *forward, strafe };
                cam.advance(None, elapsed, &map);
                assert!(0 <= cam.position.x && cam.position.x <= 20 * ONE);
                assert!(0 <= cam.position.y && cam.position.y <= 17 * ONE);
                assert!(cam.position.is_in_limits());
            }
        }
    }
}

#[test]
fn facing_stays_normal_through_steady_ticks() {
    let map = field();
    let mut cam = camera(CENTRE, CENTRE, 0, i16::MAX, 0, 0);
    let sticks = AnalogSticks { turn: i16::MAX, walk: 0, strafe: 0 };
    for _ in 0..500 {
        cam.advance(Some(sticks), STEADY_TICK_MS, &map);
        assert!(0 <= cam.facing && cam.facing < FULL_TURN);
    }
    cam.intent.rotation = i16::MIN;
    let sticks = AnalogSticks { turn: i16::MIN, walk: 0, strafe: 0 };
    for _ in 0..500 {
        cam.advance(Some(sticks), STEADY_TICK_MS, &map);
        assert!(0 <= cam.facing && cam.facing < FULL_TURN);
    }
}

#[test]
fn steady_tick_turns_less_than_a_full_turn() {
    let map = field();
    let mut cam = camera(CENTRE, CENTRE, FULL_TURN - 1, i16::MAX, 0, 0);
    cam.advance(Some(AnalogSticks { turn: i16::MAX, walk: 0, strafe: 0 }), 900, &map);
    assert_eq!(cam.facing, 23192113);
    let mut cam = camera(CENTRE, CENTRE, 0, i16::MIN, 0, 0);
    cam.advance(Some(AnalogSticks { turn: i16::MIN, walk: 0, strafe: 0 }), 900, &map);
    assert_eq!(cam.facing, 400136);
}

#[test]
fn long_tick_can_leave_the_facing_beyond_a_turn() {
    let mut cam = camera(CENTRE, CENTRE, 359 * ONE, i16::MAX, 0, 0);
    cam.advance(None, 2000, &field());
    assert_eq!(cam.facing, 25703481);
    assert!(cam.facing >= FULL_TURN);
}

#[test]
fn sticks_add_to_the_rates() {
    let mut cam = camera(CENTRE, CENTRE, 0, 0, 0, 0);
    cam.advance(Some(AnalogSticks { turn: 2000, walk: -3000, strafe: 3000 }), 1000, &field());
    assert_eq!(cam.facing, 786432);
    assert_eq!(cam.position, Point2D { x: 569170, y: 575711 });
}

#[test]
fn sticks_within_the_dead_zone_count_as_rest() {
    assert_eq!((TURN_DEADZONE, MOVE_DEADZONE), (2000, 3000));
    let before = camera(CENTRE, CENTRE, 0, 0, 0, 0);
    let mut cam = before;
    cam.advance(Some(AnalogSticks { turn: 1999, walk: -2999, strafe: 2999 }), 1000, &field());
    assert_eq!(cam, before);
    cam.advance(Some(AnalogSticks { turn: -1999, walk: 2999, strafe: -2999 }), 1000, &field());
    assert_eq!(cam, before);
    cam.advance(Some(AnalogSticks { turn: -2000, walk: 0, strafe: 0 }), 1000, &field());
    assert!(cam.facing != before.facing);
}

#[test]
fn advance_keeps_fov_and_intent() {
    let mut cam = camera(CENTRE, CENTRE, 10 * ONE, 5, -6, 7);
    cam.fov = 123456;
    cam.advance(Some(AnalogSticks { turn: 9000, walk: 9000, strafe: 9000 }), 33, &field());
    assert_eq!(cam.fov, 123456);
    assert_eq!(cam.intent, InputIntent { rotation: 5, forward: -6, strafe: 7 });
}

#[test]
fn steerable_tells_what_advance_accepts() {
    assert!(camera(0, 0, FACING_LIMIT, 0, 0, 0).is_steerable());
    assert!(camera(0, 0, -FACING_LIMIT, 0, 0, 0).is_steerable());
    assert!(!camera(0, 0, FACING_LIMIT + 1, 0, 0, 0).is_steerable());
    assert!(!camera(0, 0, i64::MIN, 0, 0, 0).is_steerable());
    let mut cam = camera(0, 0, FACING_LIMIT, i16::MAX, 0, 0);
    cam.advance(Some(AnalogSticks { turn: i16::MAX, walk: 0, strafe: 0 }), u32::MAX, &field());
    assert!(cam.facing > FACING_LIMIT);
}

#[test]
fn keys_set_full_rates() {
    let idle = InputIntent::idle();
    assert_eq!(idle, InputIntent { rotation: 0, forward: 0, strafe: 0 });
    assert_eq!(idle.press(Motion::TurnLeft).rotation, i16::MIN);
    assert_eq!(idle.press(Motion::TurnRight).rotation, i16::MAX);
    assert_eq!(idle.press(Motion::Forward).forward, i16::MAX);
    assert_eq!(idle.press(Motion::Backward).forward, i16::MIN);
    assert_eq!(idle.press(Motion::StrafeLeft).strafe, i16::MIN);
    assert_eq!(idle.press(Motion::StrafeRight).strafe, i16::MAX);
    assert_eq!(
        idle.press(Motion::Forward).press(Motion::TurnLeft).press(Motion::StrafeRight),
        InputIntent { rotation: i16::MIN, forward: i16::MAX, strafe: i16::MAX }
    );
}

#[test]
fn releasing_a_key_stops_only_its_own_motion() {
    let all = [
        Motion::TurnLeft,
        Motion::TurnRight,
        Motion::Forward,
        Motion::Backward,
        Motion::StrafeLeft,
        Motion::StrafeRight,
    ];
    for m in all {
        assert_eq!(InputIntent::idle().press(m).release(m), InputIntent::idle());
        assert_eq!(InputIntent::idle().release(m), InputIntent::idle());
    }
    let left = InputIntent::idle().press(Motion::TurnLeft);
    assert_eq!(left.release(Motion::TurnRight), left);
    let right = InputIntent::idle().press(Motion::TurnRight);
    assert_eq!(right.release(Motion::TurnLeft), right);
    let forward = InputIntent::idle().press(Motion::Forward);
    assert_eq!(forward.release(Motion::Backward), forward);
    let backward = InputIntent::idle().press(Motion::Backward);
    assert_eq!(backward.release(Motion::Forward), backward);
    let strafe_left = InputIntent::idle().press(Motion::StrafeLeft);
    assert_eq!(strafe_left.release(Motion::StrafeRight), strafe_left);
    let strafe_right = InputIntent::idle().press(Motion::StrafeRight);
    assert_eq!(strafe_right.release(Motion::StrafeLeft), strafe_right);
    assert_eq!(
        left.press(Motion::TurnRight).release(Motion::TurnLeft).rotation,
        i16::MAX
    );
}
