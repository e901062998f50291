# gamepad_tester

The verified core of a desktop gamepad tester: which gamepads are
connected, what each reports, how each axis is calibrated, how per-device
mapping files rename controls, and how backend input events become
application messages.

- `src/` — the library, verified with Verus:
  - `controls` — buttons, axes, their names, sample bit patterns;
  - `text` — character-level text helpers (equality, search, decimal numbers);
  - `keyed` — sequences of key/value entries read as maps;
  - `device` — the input state and calibration of one gamepad;
  - `messages` — the messages that change the application state;
  - `app` — the application state and its transition on each message;
  - `mappings` — mapping files and their lookup tables;
  - `routing` — turning backend events into messages;
  - `palette` — the drawing colors and the theme choice.
- `app/` — the window, the drawing, file reading and the input thread.
- `tests/` — tests of the library.

Input values (`f32`) are carried through the library as their IEEE-754 bit
patterns. The library clamps a dead zone to `0.0..=1.0` on those patterns
and flips their sign bit; other arithmetic and comparisons on them happen
in `app/`.
