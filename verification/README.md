# stm32u083c_dk

Board support for the STM32U083C discovery kit, with its logic verified by
Verus.

- `src/` is the verified library:
  - `drivers::lcd` builds the COM bitmaps that show a value on the
    4-digit segment glass, and the writes of a single-segment probe;
  - `drivers::joystick` decodes the joystick's resistor-ladder ADC sample;
  - `drivers::dedicated_rgb_leds` states the LED animations as plans of
    actions and hands them out one by one; the laws say which LEDs are lit
    during every wait;
  - `drivers::temp_sensor` is the STTS22H identity check and measurement
    protocol, as a state machine driven by the bus replies;
  - `communication` is the LCD message queue (an `embassy-sync` channel)
    with its drop-oldest send policy;
  - `tasks::joystick` decides what each joystick sample does to the blink
    delay and the LCD;
  - `decimal` renders numbers for the LCD texts.
- `app/` is the firmware around it: peripherals, transfers, timers and tasks.
- `tests/` runs the library on concrete values.
