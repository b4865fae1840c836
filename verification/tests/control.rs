use skirmish::control::{player_controller, Axis, Decision, Keys, Movement, PLAYER_SPEED};

fn keys_from_bits(bits: u32) -> Keys {
    Keys {
        key_w: bits & 1 != 0,
        arrow_up: bits & 2 != 0,
        key_a: bits & 4 != 0,
        arrow_left: bits & 8 != 0,
        key_s: bits & 16 != 0,
        arrow_down: bits & 32 != 0,
        key_d: bits & 64 != 0,
        arrow_right: bits & 128 != 0,
        attack: false,
        respawn: false,
    }
}

fn held(keys: &Keys) -> (bool, bool, bool, bool) {
    (
        keys.key_w || keys.arrow_up,
        keys.key_a || keys.arrow_left,
        keys.key_s || keys.arrow_down,
        keys.key_d || keys.arrow_right,
    )
}

#[test]
fn only_d_moves_right_and_faces_right() {
    let keys = Keys { key_d: true, ..Keys::default() };
    let m = keys.movement();
    assert_eq!((m.x.value(), m.y.value()), (1, 0));
    assert_eq!(m.length_squared(), 1);
    // 270 degrees counterclockwise from straight up is straight right.
    assert_eq!(m.facing(), Some(270));
    assert_eq!(
        player_controller(&vec![3], &keys),
        Decision::Steer {
            player: 3,
            movement: Movement { x: Axis::Positive, y: Axis::Zero },
            facing: Some(270),
            attack: false
        }
    );
}

#[test]
fn no_key_means_no_movement() {
    let keys = Keys::default();
    assert!(!keys.any_direction());
    let m = keys.movement();
    assert!(m.is_still());
    assert_eq!((m.x.value(), m.y.value()), (0, 0));
    assert_eq!(m.length_squared(), 0);
    assert_eq!(m.facing(), None);
}

#[test]
fn movement_is_never_longer_than_one() {
    for bits in 0..256u32 {
        let keys = keys_from_bits(bits);
        let m = keys.movement();
        let x = m.x.value() as i32;
        let y = m.y.value() as i32;
        let raw = x * x + y * y;
        assert_eq!(m.length_squared() as i32, raw);
        // The velocity is the vector over the root of `scale`, times the speed.
        let scale = if m.is_still() { 1 } else { raw };
        assert!(raw <= scale);
        assert_eq!(raw == scale, !m.is_still());
        let length = ((raw as f64) / (scale as f64)).sqrt();
        assert!(length <= 1.0);
        assert_eq!(length == 0.0, m.is_still());
    }
}

#[test]
fn movement_is_zero_iff_no_key_unless_keys_cancel() {
    for bits in 0..256u32 {
        let keys = keys_from_bits(bits);
        let (up, left, down, right) = held(&keys);
        let any = up || left || down || right;
        assert_eq!(keys.any_direction(), any);
        let cancelled = any && up == down && left == right;
        let m = keys.movement();
        if !cancelled {
            assert_eq!(m.is_still(), !any);
        } else {
            assert!(m.is_still());
        }
    }
}

#[test]
fn opposite_keys_cancel_on_their_axis() {
    for bits in 0..256u32 {
        let keys = keys_from_bits(bits);
        let (up, left, down, right) = held(&keys);
        let m = keys.movement();
        assert_eq!(m.x.value(), right as i8 - left as i8);
        assert_eq!(m.y.value(), up as i8 - down as i8);
    }
    let both = Keys { key_w: true, arrow_down: true, key_d: true, ..Keys::default() };
    assert_eq!(both.movement(), Movement { x: Axis::Positive, y: Axis::Zero });
    let all = Keys { key_w: true, key_s: true, key_a: true, key_d: true, ..Keys::default() };
    assert!(all.movement().is_still());
    assert!(all.any_direction());
}

#[test]
fn either_key_of_a_direction_counts_once() {
    let w = Keys { key_w: true, ..Keys::default() };
    let arrow = Keys { arrow_up: true, ..Keys::default() };
    let both = Keys { key_w: true, arrow_up: true, ..Keys::default() };
    assert_eq!(w.movement(), Movement { x: Axis::Zero, y: Axis::Positive });
    assert_eq!(arrow.movement(), w.movement());
    assert_eq!(both.movement(), w.movement());
    assert_eq!(both.movement().length_squared(), 1);
}

#[test]
fn facing_is_the_angle_from_up_mirrored_on_the_right() {
    let table = [
        (Axis::Zero, Axis::Positive, 0u16, 0u16),
        (Axis::Negative, Axis::Positive, 45, 45),
        (Axis::Negative, Axis::Zero, 90, 90),
        (Axis::Negative, Axis::Negative, 135, 135),
        (Axis::Zero, Axis::Negative, 180, 180),
        (Axis::Positive, Axis::Negative, 135, 225),
        (Axis::Positive, Axis::Zero, 90, 270),
        (Axis::Positive, Axis::Positive, 45, 315),
    ];
    for (x, y, angle, facing) in table {
        let m = Movement { x, y };
        assert_eq!(m.facing(), Some(facing));
        // The table agrees with the angle between up and the vector.
        let fx = x.value() as f64;
        let fy = y.value() as f64;
        let between = (fy / (fx * fx + fy * fy).sqrt()).acos().to_degrees();
        assert!((between - angle as f64).abs() < 1e-9);
        let expected = if x.value() > 0 { 360 - angle } else { angle };
        assert_eq!(facing, expected);
        // Turning straight up by `facing` degrees counterclockwise gives the direction.
        let turn = (facing as f64).to_radians();
        let (dx, dy) = (-turn.sin(), turn.cos());
        let len = (fx * fx + fy * fy).sqrt();
        assert!((dx - fx / len).abs() < 1e-9);
        assert!((dy - fy / len).abs() < 1e-9);
    }
    assert_eq!(Movement { x: Axis::Zero, y: Axis::Zero }.facing(), None);
}

#[test]
fn axis_values() {
    assert_eq!(Axis::Negative.value(), -1);
    assert_eq!(Axis::Zero.value(), 0);
    assert_eq!(Axis::Positive.value(), 1);
    assert_eq!(Axis::between(true, false), Axis::Positive);
    assert_eq!(Axis::between(false, true), Axis::Negative);
    assert_eq!(Axis::between(true, true), Axis::Zero);
    assert_eq!(Axis::between(false, false), Axis::Zero);
}

#[test]
fn respawn_key_wins_over_everything() {
    let keys = Keys { respawn: true, attack: true, key_w: true, ..Keys::default() };
    assert_eq!(player_controller(&vec![1], &keys), Decision::Respawn);
    assert_eq!(player_controller(&vec![], &keys), Decision::Respawn);
    assert_eq!(player_controller(&vec![1, 2], &keys), Decision::Respawn);
}

#[test]
fn without_exactly_one_player_nothing_is_steered() {
    let keys = Keys { attack: true, key_a: true, ..Keys::default() };
    assert_eq!(player_controller(&vec![], &keys), Decision::Idle);
    assert_eq!(player_controller(&vec![4, 9], &keys), Decision::Idle);
}

#[test]
fn attack_key_swings_and_standing_still_keeps_the_orientation() {
    let keys = Keys { attack: true, ..Keys::default() };
    assert_eq!(
        player_controller(&vec![11], &keys),
        Decision::Steer {
            player: 11,
            movement: Movement { x: Axis::Zero, y: Axis::Zero },
            facing: None,
            attack: true
        }
    );
    let moving = Keys { attack: true, arrow_left: true, arrow_down: true, ..Keys::default() };
    assert_eq!(
        player_controller(&vec![11], &moving),
        Decision::Steer {
            player: 11,
            movement: Movement { x: Axis::Negative, y: Axis::Negative },
            facing: Some(135),
            attack: true
        }
    );
}

#[test]
fn player_speed_is_one_hundred() {
    assert_eq!(PLAYER_SPEED, 100);
}
