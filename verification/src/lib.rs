//! Decoding of tile-map assets and their composition into RGB pictures.
//!
//! A map is a grid of cells, each naming a metatile. A metatile is a block
//! of 16 by 16 pixels made of two layers of 8 by 8 pixel tiles. Tiles are
//! stored in atlases, two 4-bit pixels to the byte, and are drawn through
//! palettes of sixteen colors. A map draws on two tilesets, a primary and a
//! secondary one, which share one space of metatile ids and one of tile ids.
//!
//! - [`map`] decodes map grids.
//! - [`tileset`] decodes metatile tables and binds them to an atlas and
//!   palettes.
//! - [`atlas`] decodes tile atlases and unpacks tiles.
//! - [`palette`] reads palette files and orders the palettes of a directory.
//! - [`compose`] draws tiles, metatiles and maps.
//! - [`raster`] holds the pixel buffers that the drawing fills.
//! - [`bytes`], [`text`] and [`order`] are the tools of the decoders.
//!
//! The library reads no files: it is handed their contents.

pub mod atlas;
pub mod bytes;
pub mod compose;
pub mod error;
pub mod map;
pub mod order;
pub mod palette;
pub mod raster;
pub mod text;
pub mod tileset;

pub use atlas::TilesetImage;
pub use compose::render_map;
pub use error::FormatError;
pub use map::{Layout, MapData, MapMetatileData};
pub use palette::{parse_all_palettes, Palette, PaletteFile};
pub use raster::{GrayRaster, RgbRaster, RgbaRaster};
pub use tileset::{
    LayerType, LayoutTileset, Metatile, MetatileAttributes, TileData, Tileset, TilesetFiles,
};
use vstd::prelude::*;

verus! {

/// Side length, in pixels, of one tile.
pub const TILE_DIMENSION: u32 = 8;

/// Side length, in pixels, of one metatile: two tiles by two.
pub const METATILE_DIMENSION: u32 = 16;

/// First raw tile id that addresses the secondary atlas. Raw ids below it
/// address the primary atlas; the others address the secondary atlas at
/// `id - PRIMARY_TILE_COUNT`. The boundary is fixed by the asset format and
/// does not depend on what the tilesets hold.
pub const PRIMARY_TILE_COUNT: u16 = 640;

} // verus!
