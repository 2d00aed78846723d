//! The ways in which an asset can be malformed.

use vstd::prelude::*;

verus! {

/// Why a set of asset files was rejected. A load either yields a complete
/// value or one of these; nothing partial is ever returned.
#[derive(Clone, Copy, Debug, PartialEq, Eq, Structural)]
pub enum FormatError {
    /// A map or border file does not hold a whole number of 16-bit cells.
    OddMapLength,
    /// The metatile file does not hold a whole number of 16-byte records.
    MisalignedMetatiles,
    /// The attribute file does not hold a whole number of 32-bit words.
    MisalignedAttributes,
    /// The metatile file and the attribute file describe different numbers
    /// of metatiles.
    MetatileCountMismatch,
    /// A palette file does not start with the three expected header lines.
    PaletteHeader,
    /// One of the sixteen color lines of a palette file is missing or is not
    /// three whitespace-separated numbers in `0..=255`.
    PaletteColor,
    /// The base name of a palette file is not a decimal number.
    PaletteName,
    /// The tile atlas is not a PNG image that the decoder accepts.
    AtlasEncoding,
    /// The tile atlas does not use four bits per pixel.
    AtlasBitDepth,
    /// The tile atlas is not an indexed-color image.
    AtlasColorType,
    /// The width or the height of the tile atlas is not a multiple of eight
    /// pixels, or the atlas is too large for its pixels to be held in
    /// memory.
    AtlasDimensions,
    /// The decoded pixel data of the tile atlas does not hold two pixels per
    /// byte for the size announced in its header.
    AtlasData,
}

} // verus!
