//! Decoding of the five-way joystick, which sits on one ADC pin behind a
//! resistor ladder: each position pulls the pin into its own voltage window.
use vstd::prelude::*;

verus! {

pub const CENTER_THRESHOLD_MIN: u16 = 0;
pub const CENTER_THRESHOLD_MAX: u16 = 300;

pub const LEFT_THRESHOLD_MIN: u16 = 600;
pub const LEFT_THRESHOLD_MAX: u16 = 1000;

pub const DOWN_THRESHOLD_MIN: u16 = 1400;
pub const DOWN_THRESHOLD_MAX: u16 = 1800;

pub const UP_THRESHOLD_MIN: u16 = 2200;
pub const UP_THRESHOLD_MAX: u16 = 2600;

pub const RIGHT_THRESHOLD_MIN: u16 = 3000;
pub const RIGHT_THRESHOLD_MAX: u16 = 3400;

pub const NEUTRAL_THRESHOLD_MIN: u16 = 3800;
pub const NEUTRAL_THRESHOLD_MAX: u16 = 4200;

/// A joystick position as read from the ladder.
#[derive(Clone, Copy, Debug, PartialEq, Eq, Structural)]
pub enum JoyDirection {
    Up,
    Down,
    Left,
    Right,
    Center,
    Neutral,
    Invalid,
}

/// The position whose window holds a raw ADC sample; `Invalid` between windows.
pub open spec fn direction_of(value: u16) -> JoyDirection {
    if CENTER_THRESHOLD_MIN <= value <= CENTER_THRESHOLD_MAX {
        JoyDirection::Center
    } else if LEFT_THRESHOLD_MIN <= value <= LEFT_THRESHOLD_MAX {
        JoyDirection::Left
    } else if DOWN_THRESHOLD_MIN <= value <= DOWN_THRESHOLD_MAX {
        JoyDirection::Down
    } else if UP_THRESHOLD_MIN <= value <= UP_THRESHOLD_MAX {
        JoyDirection::Up
    } else if RIGHT_THRESHOLD_MIN <= value <= RIGHT_THRESHOLD_MAX {
        JoyDirection::Right
    } else if NEUTRAL_THRESHOLD_MIN <= value <= NEUTRAL_THRESHOLD_MAX {
        JoyDirection::Neutral
    } else {
        JoyDirection::Invalid
    }
}

/// Whether a sample lies in the voltage window of a real position.
pub open spec fn in_window(value: u16, dir: JoyDirection) -> bool {
    match dir {
        JoyDirection::Center => CENTER_THRESHOLD_MIN <= value <= CENTER_THRESHOLD_MAX,
        JoyDirection::Left => LEFT_THRESHOLD_MIN <= value <= LEFT_THRESHOLD_MAX,
        JoyDirection::Down => DOWN_THRESHOLD_MIN <= value <= DOWN_THRESHOLD_MAX,
        JoyDirection::Up => UP_THRESHOLD_MIN <= value <= UP_THRESHOLD_MAX,
        JoyDirection::Right => RIGHT_THRESHOLD_MIN <= value <= RIGHT_THRESHOLD_MAX,
        JoyDirection::Neutral => NEUTRAL_THRESHOLD_MIN <= value <= NEUTRAL_THRESHOLD_MAX,
        JoyDirection::Invalid => false,
    }
}

impl JoyDirection {
    /// Decodes one ADC sample of the joystick pin.
    pub fn from_sample(value: u16) -> (dir: JoyDirection)
        ensures
            dir == direction_of(value),
    {
        if CENTER_THRESHOLD_MIN <= value && value <= CENTER_THRESHOLD_MAX {
            JoyDirection::Center
        } else if LEFT_THRESHOLD_MIN <= value && value <= LEFT_THRESHOLD_MAX {
            JoyDirection::Left
        } else if DOWN_THRESHOLD_MIN <= value && value <= DOWN_THRESHOLD_MAX {
            JoyDirection::Down
        } else if UP_THRESHOLD_MIN <= value && value <= UP_THRESHOLD_MAX {
            JoyDirection::Up
        } else if RIGHT_THRESHOLD_MIN <= value && value <= RIGHT_THRESHOLD_MAX {
            JoyDirection::Right
        } else if NEUTRAL_THRESHOLD_MIN <= value && value <= NEUTRAL_THRESHOLD_MAX {
            JoyDirection::Neutral
        } else {
            JoyDirection::Invalid
        }
    }

    /// The position's name, as the log prints it.
    pub fn name(&self) -> (s: &'static str)
        ensures
            s@ == direction_name(*self)@,
    {
        match self {
            JoyDirection::Up => "Up",
            JoyDirection::Down => "Down",
            JoyDirection::Left => "Left",
            JoyDirection::Right => "Right",
            JoyDirection::Center => "Center",
            JoyDirection::Neutral => "Neutral",
            JoyDirection::Invalid => "Invalid",
        }
    }
}

/// The printed name of each position.
pub open spec fn direction_name(dir: JoyDirection) -> &'static str {
    match dir {
        JoyDirection::Up => "Up",
        JoyDirection::Down => "Down",
        JoyDirection::Left => "Left",
        JoyDirection::Right => "Right",
        JoyDirection::Center => "Center",
        JoyDirection::Neutral => "Neutral",
        JoyDirection::Invalid => "Invalid",
    }
}

/// The voltage windows do not overlap, so a sample decodes to the one
/// position whose window holds it, and to `Invalid` exactly when no window does.
pub proof fn lemma_windows_decide(value: u16, dir: JoyDirection)
    ensures
        in_window(value, dir) ==> direction_of(value) == dir,
        direction_of(value) == JoyDirection::Invalid <==> (forall|d: JoyDirection|
            !#[trigger] in_window(value, d)),
{
    if direction_of(value) == JoyDirection::Invalid {
        assert forall|d: JoyDirection| !#[trigger] in_window(value, d) by {
            if in_window(value, d) {
                assert(direction_of(value) == d);
            }
        }
    } else {
        assert(in_window(value, direction_of(value)));
    }
}

} // verus!
