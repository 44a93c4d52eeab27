//! Runtime core of a 2D sprite scene engine.
//!
//! The crate tracks the position and bounding geometry of many independently
//! movable sprites in a fixed-size world, determines which of them are visible
//! to a camera, and builds a compact vertex/index batch for rendering.
//!
//! The heart of the crate is a spatial partition map with stable handles:
//! a keyed index from grid cell ([`partition::Region`]) to a free-list-backed
//! slot arena, supporting point insert, remove, move, and rectangular range
//! queries. A [`scene::Scene`] owns one such map, the sprite lifecycle, and
//! the per-frame visibility query; a render-batch builder turns the visible
//! set into vertex-position, texture-UV, and index buffers.
//!
//! All world coordinates are integers. Scale and rotation are applied through
//! fixed-point coefficients (see [`geom::SCALE_ONE`]); a host layer that works
//! in floating point converts its factors to fixed point at the boundary.

pub mod atlas;
pub mod error;
pub mod geom;
pub mod partition;
pub mod render;
pub mod scene;
