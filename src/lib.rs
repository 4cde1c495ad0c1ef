//! Overlay state engine: the graphic model, the native-surface guard, the
//! line intake and the live set of graphics with its time-to-live sweep.
pub mod engine;
pub mod geometry;
pub mod graphics_data;
pub mod intake;
pub mod protocol;
pub mod xlib_guard;
