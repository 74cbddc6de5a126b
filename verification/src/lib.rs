//! A tiler for two-dimensional vector scenes: the integer core.
//!
//! Paths are held as contours of points whose coordinates are *ordinates*:
//! 32-bit integers ordered as the real coordinates they stand for. The library
//! orders and moves ordinates and never does arithmetic on them, so everything
//! it decides (which endpoint the sweep meets next, which tiles carry which
//! winding, what a batch holds, which bytes are emitted) is stated and proved
//! over integers.

pub mod point_index;
pub mod primitives;
pub mod built_scene;
pub mod emit;
pub mod sorted_vector;
pub mod geometry;
pub mod segment;
pub mod path_event;
pub mod contour;
pub mod outline;
pub mod bitset;
pub mod built_object;
pub mod z_buffer;
pub mod scene_builder;
pub mod sweep_order;
pub mod tiler;
pub mod strip;
pub mod scene;
pub mod winding;
