//! The retained-state core of an immediate-mode GUI: stable widget identities,
//! per-widget memory across frames, layered z-order and paint buffers,
//! interaction arbitration, floating areas and resizable regions.
//!
//! Lengths and positions are whole pixels (`i32`), velocities pixels per
//! second, and frame times milliseconds. A frame runs: `Context::begin_frame`
//! with the host's input; widgets such as `Area` and `Resize` read and write
//! the context's memory and paint into its layers; `Context::end_frame`
//! hands back every paint command in painting order.
pub mod math;
pub mod id;
pub mod layers;
pub mod graphics;
pub mod memory;
pub mod context;
pub mod area;
pub mod resize;
pub mod popup;
pub mod table_rows;
