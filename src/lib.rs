//! Real-time input pipeline of a USB keyboard: matrix sampling, debouncing,
//! layered keymap resolution, HID report assembly and host indicator handling.
pub mod debounce;
pub mod keyboard;
pub mod keycode;
pub mod keymap;
pub mod layout;
pub mod leds;
pub mod matrix;
pub mod report;
pub mod transport;
