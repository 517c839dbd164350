//! Real-time I/O core of a front panel, and the screens drawn on it.
//!
//! - `framebuffer`: the bit-packed 128x64 monochrome frame store, laid out
//!   for the display module's column groups.
//! - `swap_chain`: three frame buffers handed between a frame producer and
//!   the scan-out loop.
//! - `scanner`: the per-grid-line scan protocol (pixel stream, grid select
//!   word, line cycling, frame adoption).
//! - `input`: quadrature decoding, button-matrix scanning and per-iteration
//!   input aggregation.
//! - `gfx`, `ui`, `app_views`: drawing primitives, fonts, widgets and the
//!   application screens.

pub mod framebuffer;
pub mod swap_chain;
pub mod scanner;
pub mod input;
pub mod gfx;
pub mod app_views;
pub mod ui;
