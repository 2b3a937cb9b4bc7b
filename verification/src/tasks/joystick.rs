//! The joystick control loop: on each change of position it adjusts the
//! shared blink delay and tells the LCD what happened.
use vstd::prelude::*;
use crate::decimal::{decimal, decimal_string};
use crate::drivers::joystick::JoyDirection;
use crate::drivers::lcd::LcdMessage;

verus! {

/// Largest blink delay the joystick can set.
pub const DELAY_MAX_MS: u32 = 5000;

/// How much one press changes the blink delay.
pub const DELAY_STEP_MS: u32 = 50;

/// How long the LCD shows the joystick's messages.
pub const MESSAGE_MS: u32 = 200;

/// How long the loop sleeps between two samples.
pub const POLL_MS: u64 = 20;

/// The blink delay after pressing `dir` with the delay at `delay_ms`: Up
/// shortens it by a step (not below 0), Down lengthens it by a step (not
/// above 5000 ms), any other position keeps it.
pub open spec fn delay_after(delay_ms: u32, dir: JoyDirection) -> u32 {
    match dir {
        JoyDirection::Up => if delay_ms >= DELAY_STEP_MS {
            (delay_ms - DELAY_STEP_MS) as u32
        } else {
            0
        },
        JoyDirection::Down => if delay_ms + DELAY_STEP_MS <= DELAY_MAX_MS {
            (delay_ms + DELAY_STEP_MS) as u32
        } else {
            DELAY_MAX_MS
        },
        _ => delay_ms,
    }
}

/// Whether a sample starts a new press: the first sample, or a position
/// other than the previous one.
pub open spec fn is_new_press(prev: Option<JoyDirection>, dir: JoyDirection) -> bool {
    prev != Some(dir)
}

/// The text the LCD shows after pressing Up or Down.
pub open spec fn speed_text(dir: JoyDirection, delay_ms: u32) -> Seq<char> {
    if dir == JoyDirection::Up {
        "UP to "@ + decimal(delay_ms as nat) + "ms"@
    } else {
        "DOWN to "@ + decimal(delay_ms as nat) + "ms"@
    }
}

/// What the loop does for one sample.
#[derive(Clone, Debug, PartialEq, Eq)]
pub struct JoystickStep {
    /// The position to remember for the next sample.
    pub prev: Option<JoyDirection>,
    /// The new blink delay, to store, when the press changed it.
    pub new_delay_ms: Option<u32>,
    /// The message to send to the LCD, if any.
    pub message: Option<LcdMessage>,
}

/// Builds "<prefix><delay>ms".
fn speed_message(up: bool, delay_ms: u32) -> (msg: LcdMessage)
    ensures
        msg is Text,
        msg->duration_ms == MESSAGE_MS,
        msg->text@ == speed_text(if up { JoyDirection::Up } else { JoyDirection::Down }, delay_ms),
{
    let mut text = if up {
        String::from_str("UP to ")
    } else {
        String::from_str("DOWN to ")
    };
    let number = decimal_string(delay_ms);
    text.append(number.as_str());
    text.append("ms");
    LcdMessage::Text { text, duration_ms: MESSAGE_MS }
}

/// Decides what one joystick sample does.  A sample equal to the previous
/// one does nothing; a new position is remembered and, for Up and Down,
/// changes the delay and reports it, for Right greets, for Left clears the
/// glass, and for the other positions does nothing more.
pub fn joystick_step(prev: Option<JoyDirection>, delay_ms: u32, dir: JoyDirection) -> (step:
    JoystickStep)
    ensures
        prev == Some(dir) ==> step == (JoystickStep { prev, new_delay_ms: None, message: None }),
        prev != Some(dir) ==> step.prev == Some(dir),
        !is_new_press(prev, dir) ==> step.prev == prev && step.new_delay_ms is None
            && step.message is None,
        is_new_press(prev, dir) ==> step.prev == Some(dir),
        is_new_press(prev, dir) && (dir == JoyDirection::Up || dir == JoyDirection::Down) ==> {
            &&& step.new_delay_ms == Some(delay_after(delay_ms, dir))
            &&& step.message matches Some(LcdMessage::Text { text, duration_ms })
            &&& text@ == speed_text(dir, delay_after(delay_ms, dir))
            &&& duration_ms == MESSAGE_MS
        },
        is_new_press(prev, dir) && dir == JoyDirection::Right ==> {
            &&& step.new_delay_ms is None
            &&& step.message matches Some(LcdMessage::Text { text, duration_ms })
            &&& text@ == "Wassup Dawg"@
            &&& duration_ms == MESSAGE_MS
        },
        is_new_press(prev, dir) && dir == JoyDirection::Left ==> step.new_delay_ms is None
            && step.message == Some(LcdMessage::Clear),
        is_new_press(prev, dir) && (dir == JoyDirection::Center || dir == JoyDirection::Neutral
            || dir == JoyDirection::Invalid) ==> step.new_delay_ms is None && step.message is None,
{
    let changed = match prev {
        None => true,
        Some(p) => p != dir,
    };
    if !changed {
        return JoystickStep { prev, new_delay_ms: None, message: None };
    }
    match dir {
        JoyDirection::Up => {
            let new_v = delay_ms.saturating_sub(DELAY_STEP_MS);
            let message = speed_message(true, new_v);
            JoystickStep { prev: Some(dir), new_delay_ms: Some(new_v), message: Some(message) }
        },
        JoyDirection::Down => {
            let sum = delay_ms.saturating_add(DELAY_STEP_MS);
            let new_v = if sum < DELAY_MAX_MS { sum } else { DELAY_MAX_MS };
            let message = speed_message(false, new_v);
            JoystickStep { prev: Some(dir), new_delay_ms: Some(new_v), message: Some(message) }
        },
        JoyDirection::Right => {
            let message = LcdMessage::text("Wassup Dawg", MESSAGE_MS);
            JoystickStep { prev: Some(dir), new_delay_ms: None, message: Some(message) }
        },
        JoyDirection::Left => {
            JoystickStep { prev: Some(dir), new_delay_ms: None, message: Some(LcdMessage::Clear) }
        },
        _ => JoystickStep { prev: Some(dir), new_delay_ms: None, message: None },
    }
}

/// A held position acts once: after a new press is remembered, further
/// samples of the same position are not new presses.
pub proof fn lemma_press_acts_once(dir: JoyDirection)
    ensures
        !is_new_press(Some(dir), dir),
{
}

/// The blink delay never leaves 0..=5000 ms once inside it.
pub proof fn lemma_delay_stays_bounded(delay_ms: u32, dir: JoyDirection)
    requires
        delay_ms <= DELAY_MAX_MS,
    ensures
        delay_after(delay_ms, dir) <= DELAY_MAX_MS,
{
}

/// Away from the ends of the range, Down undoes Up and Up undoes Down.
pub proof fn lemma_up_down_cancel(delay_ms: u32)
    ensures
        DELAY_STEP_MS <= delay_ms <= DELAY_MAX_MS ==> delay_after(
            delay_after(delay_ms, JoyDirection::Up),
            JoyDirection::Down,
        ) == delay_ms,
        delay_ms + DELAY_STEP_MS <= DELAY_MAX_MS ==> delay_after(
            delay_after(delay_ms, JoyDirection::Down),
            JoyDirection::Up,
        ) == delay_ms,
{
}

/// Any change of position is a new press, whatever the previous sample
/// was (none yet, a real position, or a sample between the windows); only
/// repeating the previous sample is not.
pub proof fn lemma_every_change_is_a_press(prev: Option<JoyDirection>, dir: JoyDirection)
    ensures
        prev is None ==> is_new_press(prev, dir),
        forall|p: JoyDirection| p != dir ==> is_new_press(Some(p), dir),
        is_new_press(Some(JoyDirection::Invalid), dir) <==> dir != JoyDirection::Invalid,
        !is_new_press(Some(dir), dir),
{
}

/// What one press does to the delay: Up takes 50 ms off, or all of it when
/// less is left; Down adds 50 ms, up to 5000 ms; the others leave it.
pub proof fn lemma_press_moves_delay(delay_ms: u32, dir: JoyDirection)
    ensures
        delay_ms >= 50 ==> delay_after(delay_ms, JoyDirection::Up) + 50 == delay_ms,
        delay_ms < 50 ==> delay_after(delay_ms, JoyDirection::Up) == 0,
        delay_ms + 50 <= 5000 ==> delay_after(delay_ms, JoyDirection::Down) == delay_ms + 50,
        delay_ms + 50 > 5000 ==> delay_after(delay_ms, JoyDirection::Down) == 5000,
        dir != JoyDirection::Up && dir != JoyDirection::Down ==> delay_after(delay_ms, dir)
            == delay_ms,
{
}

} // verus!
