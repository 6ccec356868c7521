//! A software model of a tag-based level renderer: a binary-space-partition
//! visibility engine together with the per-frame draw composition that a GPU
//! backend executes.
//!
//! All geometric quantities are 16.16 fixed-point integers, so every rule of
//! the engine (point classification, fog selection, draw distances, viewport
//! layout) is stated and proved exactly.

pub mod bitmap;
pub mod bsp;
pub mod error;
pub mod fixed;
pub mod frame;
pub mod geometry;
pub mod level;
pub mod params;
pub mod renderer;
pub mod shader;
pub mod sky;
pub mod sort;
pub mod table;
pub mod text;
pub mod transcode;
pub mod vertex;
