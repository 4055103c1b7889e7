# sliglight

RGB LED control for the HyperX QuadCast 2S microphone.

- `src/` is the library, written in Verus and verified: the USB frame
  encoding (`protocol`), binary32 arithmetic (`float`), color math (`color`), the animation modes
  (`animations`), built-in lighting profiles (`presets`, `config`), hex color
  parsing (`hex`), and the state of the control panel, tray menu and engine
  (`panel`, `tray`, `engine`, `dbus_service`, `audio`).
- `app/` is the program around it: the iced window, the command-line tool,
  USB access through rusb, the configuration file, PulseAudio, DBus and the
  system tray.
- `tests/` exercises the library.

Colors are computed in IEEE 754 binary32 (`f32`) arithmetic. The `float`
module carries it out on integers: every addition, subtraction,
multiplication and division rounds its exact result to the nearest `f32`
(ties to even), and `as u8` truncates toward zero and saturates; the
contracts of brightness scaling, interpolation, gradients and the flash
envelope are stated over these operations. That the integer model agrees
with the hardware's `f32` is not proved: the tests in `tests/color.rs`
compare the two, exhaustively for brightness scaling and on wide samples for
the rest.
