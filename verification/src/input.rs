//! The one-byte input that each peer sends every frame, and the decoding
//! of that byte into the player's intentions.

use vstd::prelude::*;

verus! {

pub const INPUT_FORWARD: u8 = 1;
pub const INPUT_BACKWARD: u8 = 2;
pub const INPUT_LEFT: u8 = 4;
pub const INPUT_RIGHT: u8 = 8;
pub const INPUT_FIRE: u8 = 16;
pub const INPUT_DODGE: u8 = 32;
pub const INPUT_ROCKET: u8 = 64;
pub const INPUT_REMATCH: u8 = 128;

/// Whether `flag` is set in `input`.
pub open spec fn has_flag(input: u8, flag: u8) -> bool {
    input & flag != 0
}

/// The keyboard and mouse intentions of the local player in one frame,
/// already mapped from the concrete keys that are held down.
#[derive(Clone, Copy, Debug, PartialEq, Eq)]
pub struct InputButtons {
    pub forward: bool,
    pub backward: bool,
    pub left: bool,
    pub right: bool,
    pub fire: bool,
    pub dodge: bool,
    pub rocket: bool,
    pub rematch: bool,
}

/// The input byte in which exactly the pressed buttons are set.
pub open spec fn encode_buttons(b: InputButtons) -> u8 {
    ((if b.forward { INPUT_FORWARD } else { 0u8 }) | (if b.backward { INPUT_BACKWARD } else { 0u8 })
        | (if b.left { INPUT_LEFT } else { 0u8 }) | (if b.right { INPUT_RIGHT } else { 0u8 })
        | (if b.fire { INPUT_FIRE } else { 0u8 }) | (if b.dodge { INPUT_DODGE } else { 0u8 })
        | (if b.rocket { INPUT_ROCKET } else { 0u8 }) | (if b.rematch { INPUT_REMATCH } else {
        0u8
    })) as u8
}


/// The input byte of one frame: the pressed keyboard buttons combined with
/// what the gamepad contributes.
pub fn input(buttons: &InputButtons, controller_input: u8) -> (r: u8)
    ensures
        r == encode_buttons(*buttons) | controller_input,
{
    let pressed: u8 = (if buttons.forward { INPUT_FORWARD } else { 0u8 }) | (if buttons.backward {
        INPUT_BACKWARD
    } else {
        0u8
    }) | (if buttons.left { INPUT_LEFT } else { 0u8 }) | (if buttons.right {
        INPUT_RIGHT
    } else {
        0u8
    }) | (if buttons.fire { INPUT_FIRE } else { 0u8 }) | (if buttons.dodge {
        INPUT_DODGE
    } else {
        0u8
    }) | (if buttons.rocket { INPUT_ROCKET } else { 0u8 }) | (if buttons.rematch {
        INPUT_REMATCH
    } else {
        0u8
    });
    pressed | controller_input
}

/// Which way the left stick asks the plane to turn, as decided from the
/// angle between the stick and the plane's heading.
#[derive(Clone, Copy, Debug, PartialEq, Eq)]
pub enum StickSteer {
    /// The stick is at rest, or points (almost) along the heading.
    Straight,
    Left,
    Right,
}

/// The state of the first gamepad in one frame: buttons, and the analog
/// triggers and stick already compared against their thresholds.
#[derive(Clone, Copy, Debug, PartialEq, Eq)]
pub struct GamepadButtons {
    pub south: bool,
    pub west: bool,
    pub north: bool,
    /// Either shoulder button is pressed past its threshold.
    pub shoulder: bool,
    pub left_trigger: bool,
    pub right_trigger: bool,
    pub stick: StickSteer,
}

/// The buttons that a gamepad state stands for: south fires, west launches
/// a rocket, south or north asks for a rematch, a shoulder dodges, the right
/// trigger accelerates, the left trigger brakes and the stick steers.
pub open spec fn gamepad_buttons(g: GamepadButtons) -> InputButtons {
    InputButtons {
        forward: g.right_trigger,
        backward: g.left_trigger,
        left: g.stick == StickSteer::Left,
        right: g.stick == StickSteer::Right,
        fire: g.south,
        dodge: g.shoulder,
        rocket: g.west,
        rematch: g.south || g.north,
    }
}

/// The input byte that the first gamepad contributes; nothing when there is
/// no gamepad.
pub fn get_gamepad_input(gamepad: Option<GamepadButtons>) -> (r: u8)
    ensures
        r == match gamepad {
            Some(g) => encode_buttons(gamepad_buttons(g)),
            None => 0u8,
        },
        gamepad matches Some(g) ==> {
            &&& has_flag(r, INPUT_FORWARD) == g.right_trigger
            &&& has_flag(r, INPUT_BACKWARD) == g.left_trigger
            &&& has_flag(r, INPUT_LEFT) == (g.stick == StickSteer::Left)
            &&& has_flag(r, INPUT_RIGHT) == (g.stick == StickSteer::Right)
            &&& has_flag(r, INPUT_FIRE) == g.south
            &&& has_flag(r, INPUT_DODGE) == g.shoulder
            &&& has_flag(r, INPUT_ROCKET) == g.west
            &&& has_flag(r, INPUT_REMATCH) == (g.south || g.north)
        },
{
    match gamepad {
        None => 0,
        Some(g) => {
            let buttons = InputButtons {
                forward: g.right_trigger,
                backward: g.left_trigger,
                left: match g.stick {
                    StickSteer::Left => true,
                    _ => false,
                },
                right: match g.stick {
                    StickSteer::Right => true,
                    _ => false,
                },
                fire: g.south,
                dodge: g.shoulder,
                rocket: g.west,
                rematch: g.south || g.north,
            };
            let r = input(&buttons, 0);
            assert(encode_buttons(buttons) | 0u8 == encode_buttons(buttons)) by (bit_vector);
            proof {
                lemma_gamepad_flags(g);
            }
            r
        },
    }
}

/// +1 to turn left, -1 to turn right, 0 when both or neither are held.
pub fn steer_direction(input: u8) -> (r: i8)
    ensures
        r == (if has_flag(input, INPUT_LEFT) { 1int } else { 0int }) - (if has_flag(
            input,
            INPUT_RIGHT,
        ) {
            1int
        } else {
            0int
        }),
{
    let mut steer_direction: i8 = 0;
    if input & INPUT_LEFT != 0 {
        steer_direction = steer_direction + 1;
    }
    if input & INPUT_RIGHT != 0 {
        steer_direction = steer_direction - 1;
    }
    steer_direction
}

/// +1 to accelerate, -1 to brake, 0 when both or neither are held.
pub fn accelerate_direction(input: u8) -> (r: i8)
    ensures
        r == (if has_flag(input, INPUT_FORWARD) { 1int } else { 0int }) - (if has_flag(
            input,
            INPUT_BACKWARD,
        ) {
            1int
        } else {
            0int
        }),
{
    let mut accelerate_direction: i8 = 0;
    if input & INPUT_FORWARD != 0 {
        accelerate_direction = accelerate_direction + 1;
    }
    if input & INPUT_BACKWARD != 0 {
        accelerate_direction = accelerate_direction - 1;
    }
    accelerate_direction
}

pub fn fire(input: u8) -> (b: bool)
    ensures
        b == has_flag(input, INPUT_FIRE),
{
    input & INPUT_FIRE != 0
}

pub fn dodge(input: u8) -> (b: bool)
    ensures
        b == has_flag(input, INPUT_DODGE),
{
    input & INPUT_DODGE != 0
}

pub fn rocket(input: u8) -> (b: bool)
    ensures
        b == has_flag(input, INPUT_ROCKET),
{
    input & INPUT_ROCKET != 0
}

pub fn rematch(input: u8) -> (b: bool)
    ensures
        b == has_flag(input, INPUT_REMATCH),
{
    input & INPUT_REMATCH != 0
}

/// Whether the game should exit: the quit key is held, or the east button
/// of some connected gamepad is pressed.
pub fn quit(quit_key: bool, east_pressed: &Vec<bool>) -> (r: bool)
    ensures
        r == (quit_key || exists|i: int| 0 <= i < east_pressed@.len() && east_pressed@[i]),
{
    let mut pressed = quit_key;
    let mut i: usize = 0;
    while i < east_pressed.len()
        invariant
            i <= east_pressed@.len(),
            pressed == (quit_key || exists|j: int| 0 <= j < i && east_pressed@[j]),
        decreases east_pressed@.len() - i,
    {
        if east_pressed[i] {
            pressed = true;
        }
        i = i + 1;
    }
    pressed
}

/// Decoding an input byte gives back each button that went into it: a
/// flag is set exactly when its button was pressed or the gamepad set it.
pub proof fn lemma_input_roundtrip(b: InputButtons, controller_input: u8)
    ensures
        has_flag(encode_buttons(b) | controller_input, INPUT_FORWARD) == (b.forward || has_flag(
            controller_input,
            INPUT_FORWARD,
        )),
        has_flag(encode_buttons(b) | controller_input, INPUT_BACKWARD) == (b.backward
            || has_flag(controller_input, INPUT_BACKWARD)),
        has_flag(encode_buttons(b) | controller_input, INPUT_LEFT) == (b.left || has_flag(
            controller_input,
            INPUT_LEFT,
        )),
        has_flag(encode_buttons(b) | controller_input, INPUT_RIGHT) == (b.right || has_flag(
            controller_input,
            INPUT_RIGHT,
        )),
        has_flag(encode_buttons(b) | controller_input, INPUT_FIRE) == (b.fire || has_flag(
            controller_input,
            INPUT_FIRE,
        )),
        has_flag(encode_buttons(b) | controller_input, INPUT_DODGE) == (b.dodge || has_flag(
            controller_input,
            INPUT_DODGE,
        )),
        has_flag(encode_buttons(b) | controller_input, INPUT_ROCKET) == (b.rocket || has_flag(
            controller_input,
            INPUT_ROCKET,
        )),
        has_flag(encode_buttons(b) | controller_input, INPUT_REMATCH) == (b.rematch || has_flag(
            controller_input,
            INPUT_REMATCH,
        )),
{
    let (f, bk, l, r, fi, d, ro, re) = (
        b.forward,
        b.backward,
        b.left,
        b.right,
        b.fire,
        b.dodge,
        b.rocket,
        b.rematch,
    );
    let c = controller_input;
    let e = encode_buttons(b);
    assert(e == (((if f { 1u8 } else { 0u8 }) | (if bk { 2u8 } else { 0u8 }) | (if l { 4u8 } else { 0u8 }) | (if r { 8u8 } else { 0u8 }) | (if fi { 16u8 } else { 0u8 }) | (if d { 32u8 } else { 0u8 }) | (if ro { 64u8 } else { 0u8 }) | (if re { 128u8 } else { 0u8 })) as u8));
    assert(
        ((e | c) & 1u8 != 0) == (f || c & 1u8 != 0)
        && ((e | c) & 2u8 != 0) == (bk || c & 2u8 != 0)
        && ((e | c) & 4u8 != 0) == (l || c & 4u8 != 0)
        && ((e | c) & 8u8 != 0) == (r || c & 8u8 != 0)
        && ((e | c) & 16u8 != 0) == (fi || c & 16u8 != 0)
        && ((e | c) & 32u8 != 0) == (d || c & 32u8 != 0)
        && ((e | c) & 64u8 != 0) == (ro || c & 64u8 != 0)
        && ((e | c) & 128u8 != 0) == (re || c & 128u8 != 0)
    ) by (bit_vector)
        requires
            e == (((if f { 1u8 } else { 0u8 }) | (if bk { 2u8 } else { 0u8 }) | (if l { 4u8 } else { 0u8 }) | (if r { 8u8 } else { 0u8 }) | (if fi { 16u8 } else { 0u8 }) | (if d { 32u8 } else { 0u8 }) | (if ro { 64u8 } else { 0u8 }) | (if re { 128u8 } else { 0u8 })) as u8),
    ;
}

} // verus!

verus! {

/// What each flag of the gamepad's byte means: right trigger accelerates,
/// left trigger brakes, the stick turns left or right exactly when it
/// steers that way, south fires, a shoulder dodges, west launches a rocket,
/// and south or north asks for a rematch.
pub proof fn lemma_gamepad_flags(g: GamepadButtons)
    ensures
        has_flag(encode_buttons(gamepad_buttons(g)), INPUT_FORWARD) == g.right_trigger,
        has_flag(encode_buttons(gamepad_buttons(g)), INPUT_BACKWARD) == g.left_trigger,
        has_flag(encode_buttons(gamepad_buttons(g)), INPUT_LEFT) == (g.stick == StickSteer::Left),
        has_flag(encode_buttons(gamepad_buttons(g)), INPUT_RIGHT) == (g.stick
            == StickSteer::Right),
        has_flag(encode_buttons(gamepad_buttons(g)), INPUT_FIRE) == g.south,
        has_flag(encode_buttons(gamepad_buttons(g)), INPUT_DODGE) == g.shoulder,
        has_flag(encode_buttons(gamepad_buttons(g)), INPUT_ROCKET) == g.west,
        has_flag(encode_buttons(gamepad_buttons(g)), INPUT_REMATCH) == (g.south || g.north),
{
    let e = encode_buttons(gamepad_buttons(g));
    lemma_input_roundtrip(gamepad_buttons(g), 0u8);
    assert(e | 0u8 == e) by (bit_vector);
    assert(!has_flag(0u8, INPUT_FORWARD) && !has_flag(0u8, INPUT_BACKWARD) && !has_flag(0u8, INPUT_LEFT)
        && !has_flag(0u8, INPUT_RIGHT) && !has_flag(0u8, INPUT_FIRE) && !has_flag(0u8, INPUT_DODGE)
        && !has_flag(0u8, INPUT_ROCKET) && !has_flag(0u8, INPUT_REMATCH)) by (bit_vector);
}

} // verus!
