//! Metatile tables: tile references, layer attributes and their binary
//! encodings.

pub use crate::atlas::TilesetImage;
use crate::atlas::{atlas_of_decoded, parse_tileset_png, png_frame, png_header};
use crate::bytes::{read_u16_at, read_u32_at, u16_at, u32_at};
use crate::error::FormatError;
use crate::palette::{first_error, ordered_palettes, parse_all_palettes, Palette, PaletteFile};
use vstd::prelude::*;

verus! {

/// Size in bytes of one record of a metatile file: eight 16-bit tile
/// references.
pub const METATILE_RECORD_SIZE: usize = 16;

/// Size in bytes of one record of an attribute file: one 32-bit word.
pub const ATTRIBUTE_RECORD_SIZE: usize = 4;

/// A reference to one tile of an atlas, with the orientation and the palette
/// to draw it with.
#[derive(Clone, Copy, Debug, PartialEq, Eq, Structural)]
pub struct TileData {
    /// Raw tile id, ten bits wide.
    pub tile_id: u16,
    /// Whether the columns of the tile are drawn in reverse order.
    pub flip_horizontal: bool,
    /// Whether the rows of the tile are drawn in reverse order.
    pub flip_vertical: bool,
    /// Number of the palette, four bits wide.
    pub palette_number: u8,
}

impl TileData {
    /// Whether every field fits the bits that the packed form gives it.
    pub open spec fn well_formed(&self) -> bool {
        self.tile_id < 0x400 && self.palette_number < 0x10
    }

    /// The tile reference packed in `value`: bits 0 to 9 hold the tile id,
    /// bit 10 the horizontal flip, bit 11 the vertical flip and bits 12 to 15
    /// the palette number.
    pub open spec fn unpack(value: u16) -> TileData {
        TileData {
            tile_id: value & 0x3ff,
            flip_horizontal: value & 0x400 != 0,
            flip_vertical: value & 0x800 != 0,
            palette_number: ((value & 0xf000) >> 12) as u8,
        }
    }

    /// The packed form of a tile reference. Bits of a field that do not fit
    /// its place are dropped.
    pub open spec fn pack(&self) -> u16 {
        (self.tile_id & 0x3ff) | (if self.flip_horizontal {
            0x400u16
        } else {
            0u16
        }) | (if self.flip_vertical {
            0x800u16
        } else {
            0u16
        }) | (((self.palette_number & 0xf) as u16) << 12)
    }

    /// Decoding always yields a tile reference whose fields fit their bits.
    pub proof fn lemma_unpack_well_formed(value: u16)
        ensures
            TileData::unpack(value).well_formed(),
    {
        assert(value & 0x3ff < 0x400) by (bit_vector);
        assert((value & 0xf000) >> 12 < 0x10) by (bit_vector);
    }

    /// Encoding a decoded tile reference gives back the sixteen bits it was
    /// decoded from.
    pub proof fn lemma_pack_unpack(value: u16)
        ensures
            TileData::unpack(value).pack() == value,
    {
        let id = value & 0x3ff;
        let pal = (value & 0xf000) >> 12;
        assert(pal < 0x10) by (bit_vector)
            requires
                pal == (value & 0xf000) >> 12,
        ;
        let pal8 = pal as u8;
        assert(((pal8 & 0xf) as u16) << 12 == value & 0xf000) by (bit_vector)
            requires
                pal8 == ((value & 0xf000) >> 12) as u8,
                (value & 0xf000) >> 12 < 0x10,
        ;
        assert(id & 0x3ff == id) by (bit_vector)
            requires
                id == value & 0x3ff,
        ;
        let h = if value & 0x400 != 0 {
            0x400u16
        } else {
            0u16
        };
        let v = if value & 0x800 != 0 {
            0x800u16
        } else {
            0u16
        };
        assert(h == value & 0x400) by (bit_vector)
            requires
                h == if value & 0x400 != 0 {
                    0x400u16
                } else {
                    0u16
                },
        ;
        assert(v == value & 0x800) by (bit_vector)
            requires
                v == if value & 0x800 != 0 {
                    0x800u16
                } else {
                    0u16
                },
        ;
        assert((value & 0x3ff) | (value & 0x400) | (value & 0x800) | (value & 0xf000) == value)
            by (bit_vector);
    }

    /// Decoding an encoded tile reference gives back the reference, provided
    /// its fields fit their bits.
    pub proof fn lemma_unpack_pack(tile: TileData)
        requires
            tile.well_formed(),
        ensures
            TileData::unpack(tile.pack()) == tile,
    {
        let id = tile.tile_id;
        let pal = tile.palette_number;
        let h = if tile.flip_horizontal {
            0x400u16
        } else {
            0u16
        };
        let v = if tile.flip_vertical {
            0x800u16
        } else {
            0u16
        };
        let packed = (id & 0x3ff) | h | v | (((pal & 0xf) as u16) << 12);
        assert(packed & 0x3ff == id && (packed & 0x400 != 0) == (h != 0) && (packed & 0x800 != 0)
            == (v != 0) && ((packed & 0xf000) >> 12) as u8 == pal) by (bit_vector)
            requires
                packed == (id & 0x3ff) | h | v | (((pal & 0xf) as u16) << 12),
                id < 0x400,
                pal < 0x10,
                h == 0x400u16 || h == 0u16,
                v == 0x800u16 || v == 0u16,
        ;
    }
}

impl From<u16> for TileData {
    fn from(value: u16) -> (tile: TileData) {
        assert((value & 0xf000) >> 12 < 0x10) by (bit_vector);
        TileData {
            tile_id: value & 0x3ff,
            flip_horizontal: (value & 0x400) != 0,
            flip_vertical: (value & 0x800) != 0,
            palette_number: ((value & 0xf000) >> 12) as u8,
        }
    }
}

impl vstd::std_specs::convert::FromSpecImpl<u16> for TileData {
    open spec fn obeys_from_spec() -> bool {
        true
    }

    open spec fn from_spec(value: u16) -> TileData {
        TileData::unpack(value)
    }
}

impl From<TileData> for u16 {
    fn from(tile: TileData) -> (value: u16) {
        let flip_h: u16 = if tile.flip_horizontal {
            0x400
        } else {
            0
        };
        let flip_v: u16 = if tile.flip_vertical {
            0x800
        } else {
            0
        };
        let palette: u16 = (tile.palette_number & 0xf) as u16;
        (tile.tile_id & 0x3ff) | flip_h | flip_v | (palette << 12)
    }
}

impl vstd::std_specs::convert::FromSpecImpl<TileData> for u16 {
    open spec fn obeys_from_spec() -> bool {
        true
    }

    open spec fn from_spec(tile: TileData) -> u16 {
        tile.pack()
    }
}

/// How the two layers of a metatile sit among the other layers of a scene.
#[derive(Clone, Copy, Debug, PartialEq, Eq, Structural)]
pub enum LayerType {
    /// The bottom layer is drawn in the middle, the top layer on top.
    MiddleTop,
    /// The bottom layer is drawn at the bottom, the top layer in the middle.
    BottomMiddle,
    /// The bottom layer is drawn at the bottom, the top layer on top.
    BottomTop,
}

/// The attributes of one metatile.
#[derive(Clone, Copy, Debug, PartialEq, Eq, Structural)]
pub struct MetatileAttributes {
    /// How the layers of the metatile are classified.
    pub layer_type: LayerType,
}

impl MetatileAttributes {
    /// The attributes packed in `value`: bits 29 and 30 select the layer
    /// type, 1 for `BottomMiddle` and 2 for `BottomTop`; 0 and the unassigned
    /// 3 give `MiddleTop`.
    pub open spec fn unpack(value: u32) -> MetatileAttributes {
        let selector = (value >> 29) & 0b11;
        MetatileAttributes {
            layer_type: if selector == 1 {
                LayerType::BottomMiddle
            } else if selector == 2 {
                LayerType::BottomTop
            } else {
                LayerType::MiddleTop
            },
        }
    }
}

impl From<u32> for MetatileAttributes {
    fn from(value: u32) -> (attributes: MetatileAttributes) {
        let selector: u32 = (value >> 29) & 0b11;
        let layer_type = if selector == 0 {
            LayerType::MiddleTop
        } else if selector == 1 {
            LayerType::BottomMiddle
        } else if selector == 2 {
            LayerType::BottomTop
        } else {
            LayerType::MiddleTop
        };
        MetatileAttributes { layer_type }
    }
}

impl vstd::std_specs::convert::FromSpecImpl<u32> for MetatileAttributes {
    open spec fn obeys_from_spec() -> bool {
        true
    }

    open spec fn from_spec(value: u32) -> MetatileAttributes {
        MetatileAttributes::unpack(value)
    }
}

/// A 16 by 16 pixel block made of eight tiles: a bottom layer of two by two
/// tiles in `tiles[0..4]` and a top layer in `tiles[4..8]`, each layer in
/// row-major order.
#[derive(Clone, Copy, Debug)]
pub struct Metatile {
    /// The tile references, bottom layer first.
    pub tiles: [TileData; 8],
    /// The attributes of the metatile.
    pub attributes: MetatileAttributes,
}

/// The tile reference in slot `slot` of record `index` of a metatile file.
pub open spec fn record_tile(metatiles: Seq<u8>, index: int, slot: int) -> TileData {
    TileData::unpack(u16_at(metatiles, 16 * index + 2 * slot))
}

/// The metatile that record `index` of a metatile file and word `index` of
/// an attribute file describe.
pub open spec fn record(metatiles: Seq<u8>, attributes: Seq<u8>, index: int) -> Metatile {
    Metatile {
        tiles: [
            record_tile(metatiles, index, 0),
            record_tile(metatiles, index, 1),
            record_tile(metatiles, index, 2),
            record_tile(metatiles, index, 3),
            record_tile(metatiles, index, 4),
            record_tile(metatiles, index, 5),
            record_tile(metatiles, index, 6),
            record_tile(metatiles, index, 7),
        ],
        attributes: MetatileAttributes::unpack(u32_at(attributes, 4 * index)),
    }
}

/// Every tile reference of a record, encoded again, gives back the sixteen
/// bits that the file holds for it.
pub proof fn lemma_record_round_trip(metatiles: Seq<u8>, attributes: Seq<u8>, index: int, slot: int)
    requires
        0 <= slot < 8,
    ensures
        record(metatiles, attributes, index).tiles[slot].pack() == u16_at(
            metatiles,
            16 * index + 2 * slot,
        ),
        TileData::unpack(record(metatiles, attributes, index).tiles[slot].pack()) == record(
            metatiles,
            attributes,
            index,
        ).tiles[slot],
{
    assert(record(metatiles, attributes, index).tiles[slot] == record_tile(
        metatiles,
        index,
        slot,
    ));
    TileData::lemma_pack_unpack(u16_at(metatiles, 16 * index + 2 * slot));
}

/// Why a metatile file and an attribute file are rejected, if they are.
pub open spec fn metatile_files_error(metatiles: Seq<u8>, attributes: Seq<u8>) -> Option<
    FormatError,
> {
    if metatiles.len() % 16 != 0 {
        Some(FormatError::MisalignedMetatiles)
    } else if attributes.len() % 4 != 0 {
        Some(FormatError::MisalignedAttributes)
    } else if metatiles.len() / 16 != attributes.len() / 4 {
        Some(FormatError::MetatileCountMismatch)
    } else {
        None
    }
}

/// The metatile table that a metatile file and an attribute file describe:
/// one metatile per record of the metatile file.
pub open spec fn metatile_table(metatiles: Seq<u8>, attributes: Seq<u8>) -> Seq<Metatile> {
    Seq::new(metatiles.len() / 16, |i: int| record(metatiles, attributes, i))
}

/// Decodes a metatile table from the contents of its two files: 16-byte
/// records of eight tile references, and one 32-bit attribute word per
/// record. Files that are misaligned or that disagree on the number of
/// metatiles are rejected.
pub fn parse_metatile_files(metatiles: &[u8], attributes: &[u8]) -> (result: Result<
    Vec<Metatile>,
    FormatError,
>)
    ensures
        match result {
            Ok(table) => {
                &&& metatile_files_error(metatiles@, attributes@) is None
                &&& table@ == metatile_table(metatiles@, attributes@)
            },
            Err(error) => metatile_files_error(metatiles@, attributes@) == Some(error),
        },
{
    if metatiles.len() % METATILE_RECORD_SIZE != 0 {
        return Err(FormatError::MisalignedMetatiles);
    }
    if attributes.len() % ATTRIBUTE_RECORD_SIZE != 0 {
        return Err(FormatError::MisalignedAttributes);
    }
    let count: usize = metatiles.len() / METATILE_RECORD_SIZE;
    if attributes.len() / ATTRIBUTE_RECORD_SIZE != count {
        return Err(FormatError::MetatileCountMismatch);
    }
    let mut table: Vec<Metatile> = Vec::new();
    let mut index: usize = 0;
    while index < count
        invariant
            index <= count,
            count == metatiles@.len() / 16,
            count == attributes@.len() / 4,
            metatiles@.len() % 16 == 0,
            attributes@.len() % 4 == 0,
            metatiles@.len() <= usize::MAX,
            attributes@.len() <= usize::MAX,
            table@ == Seq::new(index as nat, |i: int| record(metatiles@, attributes@, i)),
        decreases count - index,
    {
        let base: usize = index * METATILE_RECORD_SIZE;
        let word = read_u32_at(attributes, index * ATTRIBUTE_RECORD_SIZE);
        let tiles = [
            TileData::from(read_u16_at(metatiles, base)),
            TileData::from(read_u16_at(metatiles, base + 2)),
            TileData::from(read_u16_at(metatiles, base + 4)),
            TileData::from(read_u16_at(metatiles, base + 6)),
            TileData::from(read_u16_at(metatiles, base + 8)),
            TileData::from(read_u16_at(metatiles, base + 10)),
            TileData::from(read_u16_at(metatiles, base + 12)),
            TileData::from(read_u16_at(metatiles, base + 14)),
        ];
        let metatile = Metatile { tiles, attributes: MetatileAttributes::from(word) };
        table.push(metatile);
        index += 1;
    }
    Ok(table)
}


/// One set of assets: a metatile table together with the tile atlas and the
/// palettes that its tiles are drawn with.
#[derive(Debug)]
pub struct Tileset {
    /// The metatiles, by id.
    pub metatiles: Vec<Metatile>,
    /// The atlas that tile ids select from.
    pub tile_image: TilesetImage,
    /// The palettes, by palette number.
    pub palettes: Vec<Palette>,
}

/// The files of one tileset, by what they hold.
#[derive(Debug)]
pub struct TilesetFiles {
    /// The metatile file: eight tile references per metatile.
    pub metatiles: Vec<u8>,
    /// The attribute file: one word per metatile.
    pub attributes: Vec<u8>,
    /// The tile atlas, a PNG image.
    pub tiles: Vec<u8>,
    /// The files of the directory of palettes, in any order.
    pub palettes: Vec<PaletteFile>,
}

impl TilesetFiles {
    /// Why these files make no tileset, if they make none. The metatile
    /// table is judged first, then the atlas, then the palettes.
    pub open spec fn error(&self) -> Option<FormatError> {
        match metatile_files_error(self.metatiles@, self.attributes@) {
            Some(error) => Some(error),
            None => match atlas_of_decoded(png_header(self.tiles@), png_frame(self.tiles@)) {
                Err(error) => Some(error),
                Ok(_) => first_error(self.palettes@),
            },
        }
    }
}

impl Tileset {
    /// Whether this tileset is what `files` hold.
    pub open spec fn made_of(&self, files: &TilesetFiles) -> bool {
        &&& self.metatiles@ == metatile_table(files.metatiles@, files.attributes@)
        &&& atlas_of_decoded(png_header(files.tiles@), png_frame(files.tiles@)) == Ok::<
            crate::atlas::TilesetImageView,
            FormatError,
        >(self.tile_image@)
        &&& ordered_palettes(files.palettes@, self.palettes@)
    }

    /// Loads a tileset from the contents of its files: the metatile
    /// table, the tile atlas and the palettes. The first of these that is
    /// malformed decides the error.
    pub fn load_from_path(files: &TilesetFiles) -> (result: Result<Tileset, FormatError>)
        ensures
            match result {
                Ok(tileset) => files.error() is None && tileset.made_of(files),
                Err(error) => files.error() == Some(error),
            },
    {
        let metatiles = match parse_metatile_files(
            files.metatiles.as_slice(),
            files.attributes.as_slice(),
        ) {
            Ok(metatiles) => metatiles,
            Err(error) => {
                return Err(error);
            },
        };
        let tile_image = match parse_tileset_png(files.tiles.as_slice()) {
            Ok(tile_image) => tile_image,
            Err(error) => {
                return Err(error);
            },
        };
        let palettes = match parse_all_palettes(files.palettes.as_slice()) {
            Ok(palettes) => palettes,
            Err(error) => {
                return Err(error);
            },
        };
        Ok(Tileset { metatiles, tile_image, palettes })
    }

    /// The metatile with the given id.
    pub fn get_metatile(&self, metatile_id: usize) -> (metatile: &Metatile)
        requires
            metatile_id < self.metatiles.len(),
        ensures
            *metatile == self.metatiles[metatile_id as int],
    {
        &self.metatiles[metatile_id]
    }
}

/// The two tilesets of a map. Their metatiles share one id space, the
/// primary ones first; their tiles share one id space too, split at
/// `PRIMARY_TILE_COUNT`.
#[derive(Debug)]
pub struct LayoutTileset {
    /// The tileset of the ids below the boundaries.
    pub primary: Tileset,
    /// The tileset of the ids from the boundaries on.
    pub secondary: Tileset,
}

impl LayoutTileset {
    /// Loads the two tilesets of a map from the contents of their files,
    /// the primary one first. The first tileset that is malformed decides
    /// the error.
    pub fn load_from_paths(primary: &TilesetFiles, secondary: &TilesetFiles) -> (result: Result<
        LayoutTileset,
        FormatError,
    >)
        ensures
            match result {
                Ok(tilesets) => {
                    &&& primary.error() is None
                    &&& secondary.error() is None
                    &&& tilesets.primary.made_of(primary)
                    &&& tilesets.secondary.made_of(secondary)
                },
                Err(error) => primary.error() == Some(error) || (primary.error() is None
                    && secondary.error() == Some(error)),
            },
    {
        let primary = match Tileset::load_from_path(primary) {
            Ok(tileset) => tileset,
            Err(error) => {
                return Err(error);
            },
        };
        let secondary = match Tileset::load_from_path(secondary) {
            Ok(tileset) => tileset,
            Err(error) => {
                return Err(error);
            },
        };
        Ok(LayoutTileset { primary, secondary })
    }
}

} // verus!
