pub mod dedicated_rgb_leds;
pub mod joystick;
pub mod lcd;
pub mod temp_sensor;
