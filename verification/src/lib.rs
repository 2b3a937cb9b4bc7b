//! Board-support logic for the STM32U083C discovery kit: the segment LCD
//! frame builder, the joystick ladder decoder, the RGB LED animations, the
//! STTS22H measurement protocol, the LCD message queue policy and the
//! joystick control loop, each stated and proved over plain values.
pub mod communication;
pub mod decimal;
pub mod drivers;
pub mod tasks;
