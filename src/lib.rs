//! Tile scheduling and pixel bookkeeping for a tile-based path tracer.
//!
//! The renderer splits its output surface into rectangular tiles that are
//! rendered independently and then copied onto the surface. This crate holds
//! the integer part of that work: how the surface is partitioned, how a
//! tile's pixel buffer is laid out, and how a tile's pixels map to surface
//! and image-plane coordinates.
use vstd::prelude::*;

pub mod hit;
pub mod tile;

verus! {

use crate::tile::TileConfig;

/// Settings of one render run: samples per pixel, the bounce budget of each
/// camera ray, and the size of the tiles the surface is split into.
pub struct RenderOptions {
    pub samples: u32,
    pub max_scatter: u32,
    pub tile_config: TileConfig,
}

} // verus!
