//! Incremental rasterization and computational-geometry core.
//!
//! Every algorithm in this crate works on exact integer coordinates and is
//! expressed as a resumable generator: a value-state machine that yields one
//! batch of samples per step, so a caller can run it to completion at once or
//! replay it one step per tick.

pub mod curves;
pub mod delone;
pub mod figure;
pub mod fill;
pub mod gen;
pub mod geometry;
pub mod lines;
pub mod parameters;
pub mod pixel;
pub mod polygon;
pub mod second_order_lines;
pub mod voronoi;
