use stm32u083c_dk::drivers::joystick::JoyDirection;
use stm32u083c_dk::drivers::lcd::LcdMessage;
use stm32u083c_dk::tasks::joystick::{joystick_step, JoystickStep};

fn text(s: &str) -> Option<LcdMessage> {
    Some(LcdMessage::Text { text: String::from(s), duration_ms: 200 })
}

#[test]
fn samples_decode_to_their_window() {
    assert_eq!(JoyDirection::from_sample(0), JoyDirection::Center);
    assert_eq!(JoyDirection::from_sample(300), JoyDirection::Center);
    assert_eq!(JoyDirection::from_sample(301), JoyDirection::Invalid);
    assert_eq!(JoyDirection::from_sample(599), JoyDirection::Invalid);
    assert_eq!(JoyDirection::from_sample(600), JoyDirection::Left);
    assert_eq!(JoyDirection::from_sample(1000), JoyDirection::Left);
    assert_eq!(JoyDirection::from_sample(1500), JoyDirection::Down);
    assert_eq!(JoyDirection::from_sample(2400), JoyDirection::Up);
    assert_eq!(JoyDirection::from_sample(3400), JoyDirection::Right);
    assert_eq!(JoyDirection::from_sample(3401), JoyDirection::Invalid);
    assert_eq!(JoyDirection::from_sample(3800), JoyDirection::Neutral);
    assert_eq!(JoyDirection::from_sample(4200), JoyDirection::Neutral);
    assert_eq!(JoyDirection::from_sample(4201), JoyDirection::Invalid);
    assert_eq!(JoyDirection::from_sample(u16::MAX), JoyDirection::Invalid);
}

#[test]
fn direction_names() {
    assert_eq!(JoyDirection::Up.name(), "Up");
    assert_eq!(JoyDirection::Neutral.name(), "Neutral");
    assert_eq!(JoyDirection::Invalid.name(), "Invalid");
}

#[test]
fn up_speeds_up_and_reports() {
    let s = joystick_step(None, 100, JoyDirection::Up);
    assert_eq!(
        s,
        JoystickStep {
            prev: Some(JoyDirection::Up),
            new_delay_ms: Some(50),
            message: text("UP to 50ms"),
        }
    );
}

#[test]
fn up_saturates_at_zero() {
    let s = joystick_step(Some(JoyDirection::Neutral), 30, JoyDirection::Up);
    assert_eq!(s.new_delay_ms, Some(0));
    assert_eq!(s.message, text("UP to 0ms"));
}

#[test]
fn down_slows_down_up_to_5000() {
    let s = joystick_step(Some(JoyDirection::Neutral), 100, JoyDirection::Down);
    assert_eq!(s.new_delay_ms, Some(150));
    assert_eq!(s.message, text("DOWN to 150ms"));
    let s = joystick_step(Some(JoyDirection::Neutral), 4980, JoyDirection::Down);
    assert_eq!(s.new_delay_ms, Some(5000));
    assert_eq!(s.message, text("DOWN to 5000ms"));
    let s = joystick_step(Some(JoyDirection::Neutral), u32::MAX, JoyDirection::Down);
    assert_eq!(s.new_delay_ms, Some(5000));
}

#[test]
fn held_position_does_nothing() {
    let s = joystick_step(Some(JoyDirection::Up), 100, JoyDirection::Up);
    assert_eq!(
        s,
        JoystickStep { prev: Some(JoyDirection::Up), new_delay_ms: None, message: None }
    );
}

#[test]
fn right_greets_and_left_clears() {
    let s = joystick_step(Some(JoyDirection::Neutral), 100, JoyDirection::Right);
    assert_eq!(s.new_delay_ms, None);
    assert_eq!(s.message, text("Wassup Dawg"));
    let s = joystick_step(Some(JoyDirection::Neutral), 100, JoyDirection::Left);
    assert_eq!(s.message, Some(LcdMessage::Clear));
    assert_eq!(s.prev, Some(JoyDirection::Left));
}

#[test]
fn other_positions_are_only_remembered() {
    for d in [JoyDirection::Center, JoyDirection::Neutral, JoyDirection::Invalid] {
        let s = joystick_step(Some(JoyDirection::Up), 100, d);
        assert_eq!(s, JoystickStep { prev: Some(d), new_delay_ms: None, message: None });
    }
}

#[test]
fn up_then_down_restores_the_delay() {
    let a = joystick_step(Some(JoyDirection::Neutral), 700, JoyDirection::Up);
    let b = joystick_step(a.prev, a.new_delay_ms.unwrap(), JoyDirection::Down);
    assert_eq!(b.new_delay_ms, Some(700));
}
