//! A CHIP-8 virtual machine: a fixed-width instruction set over a small flat
//! memory, sixteen 8-bit registers, a monochrome 64x32 bitmap display, a call
//! stack, two countdown timers and a 16-key input pad.
//!
//! The machine state and the per-cycle instruction semantics live here; the
//! hosting program owns the window, the keyboard mapping and the frame pacing,
//! and drives the machine through `cycle`, `update_timers`, `set_key` and
//! `get_display_buffer`.

pub mod display;
pub mod draw;
pub mod engine;
pub mod laws;
pub mod machine;
