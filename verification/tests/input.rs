use remote_lab::input::{apply_input, failure_label, InputAction, ScrollAxis, Single};
use remote_lab::keys::Key;
use remote_lab::{InputMessage, MouseButton};

fn single(x: f32) -> Single {
    Single { bits: x.to_bits() }
}

const SAMPLES: [f32; 16] = [
    0.0,
    -0.0,
    0.5,
    -0.5,
    1.0,
    -1.0,
    1.0000001,
    0.99999994,
    f32::MIN_POSITIVE,
    -f32::MIN_POSITIVE,
    f32::MAX,
    f32::MIN,
    f32::INFINITY,
    f32::NEG_INFINITY,
    f32::NAN,
    1.0e-45,
];

#[test]
fn clamping_is_that_of_single_precision() {
    for x in SAMPLES {
        assert_eq!(single(x).clamp_unit().bits, x.clamp(0.0, 1.0).to_bits());
    }
}

#[test]
fn clamping_twice_is_clamping_once() {
    for x in SAMPLES {
        assert_eq!(single(x).clamp_unit().clamp_unit(), single(x).clamp_unit());
    }
}

#[test]
fn zero_and_sign_are_those_of_single_precision() {
    for x in SAMPLES {
        assert_eq!(single(x).is_zero(), x == 0.0);
        assert_eq!(single(x).is_nan(), x.is_nan());
        assert_eq!(single(x).signum(), x.signum() as i32);
    }
    assert!(Single { bits: 0xffc0_0001 }.is_nan());
}

#[test]
fn move_is_held_in_the_screen() {
    let message = InputMessage::MouseMove { x: single(1.5), y: single(-3.0) };
    assert_eq!(
        apply_input(&message, 1920, 0),
        vec![InputAction::MoveMouse { x: single(1.0), y: single(0.0), width: 1920, height: 1 }]
    );
}

#[test]
fn move_inside_the_screen_stays() {
    let message = InputMessage::MouseMove { x: single(0.25), y: single(0.75) };
    assert_eq!(
        apply_input(&message, 800, 600),
        vec![InputAction::MoveMouse { x: single(0.25), y: single(0.75), width: 800, height: 600 }]
    );
}

#[test]
fn buttons_are_pressed_and_released() {
    for button in [MouseButton::Left, MouseButton::Right, MouseButton::Middle] {
        assert_eq!(
            apply_input(&InputMessage::MouseDown { button }, 1, 1),
            vec![InputAction::Button { button, pressed: true }]
        );
        assert_eq!(
            apply_input(&InputMessage::MouseUp { button }, 1, 1),
            vec![InputAction::Button { button, pressed: false }]
        );
    }
}

#[test]
fn scroll_turns_two_steps_down_first() {
    let message = InputMessage::Scroll { dx: single(-0.1), dy: single(40.0) };
    assert_eq!(
        apply_input(&message, 1, 1),
        vec![
            InputAction::Scroll { amount: 2, axis: ScrollAxis::Vertical },
            InputAction::Scroll { amount: -2, axis: ScrollAxis::Horizontal },
        ]
    );
}

#[test]
fn scroll_by_nothing_does_nothing() {
    let message = InputMessage::Scroll { dx: single(0.0), dy: single(-0.0) };
    assert_eq!(apply_input(&message, 1, 1), vec![]);
}

#[test]
fn scroll_by_no_number_turns_zero_steps() {
    let message = InputMessage::Scroll { dx: single(f32::NAN), dy: single(0.0) };
    assert_eq!(
        apply_input(&message, 1, 1),
        vec![InputAction::Scroll { amount: 0, axis: ScrollAxis::Horizontal }]
    );
}

#[test]
fn keys_are_pressed_and_released() {
    assert_eq!(
        apply_input(&InputMessage::KeyDown { key: "esc".to_string() }, 1, 1),
        vec![InputAction::Key { key: Key::Escape, pressed: true }]
    );
    assert_eq!(
        apply_input(&InputMessage::KeyUp { key: "x".to_string() }, 1, 1),
        vec![InputAction::Key { key: Key::Unicode('x'), pressed: false }]
    );
}

#[test]
fn unknown_key_does_nothing() {
    assert_eq!(apply_input(&InputMessage::KeyDown { key: "hyper".to_string() }, 1, 1), vec![]);
    assert_eq!(apply_input(&InputMessage::KeyUp { key: "hyper".to_string() }, 1, 1), vec![]);
}

#[test]
fn failures_are_named() {
    let at = single(0.0);
    let left = MouseButton::Left;
    for (action, label) in [
        (InputAction::MoveMouse { x: at, y: at, width: 1, height: 1 }, "mouse move"),
        (InputAction::Button { button: left, pressed: true }, "mouse down"),
        (InputAction::Button { button: left, pressed: false }, "mouse up"),
        (InputAction::Scroll { amount: 2, axis: ScrollAxis::Vertical }, "scroll"),
        (InputAction::Key { key: Key::Tab, pressed: true }, "key"),
    ] {
        assert_eq!(failure_label(&action), label);
    }
}
