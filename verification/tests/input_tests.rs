use ace_of_the_heavens::input::{
    accelerate_direction, dodge, fire, get_gamepad_input, input, quit, rematch, rocket,
    steer_direction, GamepadButtons, InputButtons, StickSteer, INPUT_BACKWARD, INPUT_DODGE,
    INPUT_FIRE, INPUT_FORWARD, INPUT_LEFT, INPUT_REMATCH, INPUT_RIGHT, INPUT_ROCKET,
};

fn no_buttons() -> InputButtons {
    InputButtons {
        forward: false,
        backward: false,
        left: false,
        right: false,
        fire: false,
        dodge: false,
        rocket: false,
        rematch: false,
    }
}

#[test]
fn flags_are_single_bits() {
    assert_eq!(INPUT_FORWARD, 1 << 0);
    assert_eq!(INPUT_BACKWARD, 1 << 1);
    assert_eq!(INPUT_LEFT, 1 << 2);
    assert_eq!(INPUT_RIGHT, 1 << 3);
    assert_eq!(INPUT_FIRE, 1 << 4);
    assert_eq!(INPUT_DODGE, 1 << 5);
    assert_eq!(INPUT_ROCKET, 1 << 6);
    assert_eq!(INPUT_REMATCH, 1 << 7);
}

#[test]
fn input_encodes_pressed_buttons() {
    let mut b = no_buttons();
    assert_eq!(input(&b, 0), 0);
    b.fire = true;
    b.left = true;
    assert_eq!(input(&b, 0), INPUT_FIRE | INPUT_LEFT);
    assert_eq!(input(&b, INPUT_ROCKET), INPUT_FIRE | INPUT_LEFT | INPUT_ROCKET);
}

#[test]
fn input_roundtrip_all_buttons() {
    let b = InputButtons {
        forward: true,
        backward: false,
        left: false,
        right: true,
        fire: true,
        dodge: true,
        rocket: false,
        rematch: true,
    };
    let byte = input(&b, 0);
    assert!(fire(byte));
    assert!(dodge(byte));
    assert!(!rocket(byte));
    assert!(rematch(byte));
    assert_eq!(steer_direction(byte), -1);
    assert_eq!(accelerate_direction(byte), 1);
}

#[test]
fn steering_and_acceleration_cancel_out() {
    assert_eq!(steer_direction(INPUT_LEFT | INPUT_RIGHT), 0);
    assert_eq!(steer_direction(INPUT_LEFT), 1);
    assert_eq!(steer_direction(0), 0);
    assert_eq!(accelerate_direction(INPUT_FORWARD | INPUT_BACKWARD), 0);
    assert_eq!(accelerate_direction(INPUT_BACKWARD), -1);
}

#[test]
fn gamepad_buttons_map_to_flags() {
    assert_eq!(get_gamepad_input(None), 0);
    let g = GamepadButtons {
        south: true,
        west: false,
        north: false,
        shoulder: true,
        left_trigger: false,
        right_trigger: true,
        stick: StickSteer::Left,
    };
    assert_eq!(
        get_gamepad_input(Some(g)),
        INPUT_FIRE | INPUT_REMATCH | INPUT_DODGE | INPUT_FORWARD | INPUT_LEFT
    );
    let g2 = GamepadButtons {
        south: false,
        west: true,
        north: true,
        shoulder: false,
        left_trigger: true,
        right_trigger: false,
        stick: StickSteer::Straight,
    };
    assert_eq!(get_gamepad_input(Some(g2)), INPUT_ROCKET | INPUT_REMATCH | INPUT_BACKWARD);
}

#[test]
fn quit_on_key_or_any_east_button() {
    assert!(!quit(false, &vec![]));
    assert!(quit(true, &vec![]));
    assert!(quit(false, &vec![false, true]));
    assert!(!quit(false, &vec![false, false]));
}
