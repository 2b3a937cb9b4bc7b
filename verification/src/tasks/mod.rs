pub mod joystick;
