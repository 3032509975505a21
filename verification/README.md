# pico_kernel

Verified logic of a small RP2350 (Pico 2) firmware kernel, written in Verus.

- `src/scancode.rs` — PS/2 Scan Code Set 2 table (`decode_set2`).
- `src/ps2.rs` — the PS/2 frame receiver (`Ps2State`), modelled by `ps2_step`.
- `src/ps2_laws.rs` — laws over whole frames: a make code types its key,
  break and extended codes type nothing, misframed frames are dropped,
  typed keys arrive in order.
- `src/keys.rs` — the key queue, `kb_read_key`, the interrupt's receive step,
  and the simulated keyboard.
- `src/lcd.rs` — the HD44780 4-bit driver, which produces programs of pin
  writes and delays (`LcdOp`).
- `src/hd44780.rs` — a model of what the controller latches and of its
  display memory, and laws saying which nibbles and bytes each program
  delivers and which cells a printed line sets.
- `src/panels.rs` — panel selection and `hw_print_str`.
- `app/lib.rs` — board code (rp235x-hal, cortex-m, critical-section): plays
  the programs on GPIO, samples the PS/2 lines in the interrupt, holds the
  shared state in critical-section mutexes.
