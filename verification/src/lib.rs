//! Verified logic of a small RP2350 firmware kernel: a PS/2 keyboard
//! receiver, its key queue, and a bit-banged HD44780 4-bit LCD driver for
//! three panels that share a data bus.
pub mod scancode;
pub mod ps2;
pub mod ps2_laws;
pub mod keys;
pub mod lcd;
pub mod hd44780;
pub mod panels;
pub mod bus_timing;
