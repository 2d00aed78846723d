//! Map grids: rows of 16-bit cells that name the metatile to draw.

use crate::bytes::{read_u16_at, u16_at};
use crate::error::FormatError;
use vstd::prelude::*;

verus! {

/// Size in bytes of one cell of a map or border file.
pub const MAP_CELL_SIZE: usize = 2;

/// One cell of a map: the metatile to draw, and how the cell can be walked.
#[derive(Clone, Copy, Debug, PartialEq, Eq, Structural)]
pub struct MapMetatileData {
    /// Id of the metatile, ten bits wide.
    pub metatile_id: u16,
    /// Collision class of the cell, two bits wide.
    pub collision_data: u8,
    /// Elevation of the cell, four bits wide.
    pub elevation: u8,
}

impl MapMetatileData {
    /// The cell packed in `value`: bits 0 to 9 hold the metatile id, bits 10
    /// and 11 the collision class and bits 12 to 15 the elevation.
    pub open spec fn unpack(value: u16) -> MapMetatileData {
        MapMetatileData {
            metatile_id: value & 0x03ff,
            collision_data: ((value & 0x0c00) >> 10) as u8,
            elevation: ((value & 0xf000) >> 12) as u8,
        }
    }

    /// The fields of a decoded cell fit the bits they were read from.
    pub proof fn lemma_unpack_bounds(value: u16)
        ensures
            MapMetatileData::unpack(value).metatile_id < 0x400,
            MapMetatileData::unpack(value).collision_data < 4,
            MapMetatileData::unpack(value).elevation < 16,
    {
        assert(value & 0x03ff < 0x400) by (bit_vector);
        assert((value & 0x0c00) >> 10 < 4) by (bit_vector);
        assert((value & 0xf000) >> 12 < 16) by (bit_vector);
    }
}

impl From<u16> for MapMetatileData {
    fn from(value: u16) -> (cell: MapMetatileData) {
        assert((value & 0x0c00) >> 10 < 4) by (bit_vector);
        assert((value & 0xf000) >> 12 < 16) by (bit_vector);
        MapMetatileData {
            metatile_id: value & 0x03ff,
            collision_data: ((value & 0x0c00) >> 10) as u8,
            elevation: ((value & 0xf000) >> 12) as u8,
        }
    }
}

impl vstd::std_specs::convert::FromSpecImpl<u16> for MapMetatileData {
    open spec fn obeys_from_spec() -> bool {
        true
    }

    open spec fn from_spec(value: u16) -> MapMetatileData {
        MapMetatileData::unpack(value)
    }
}

/// The cells of a map and of its border. The border cells are what a game
/// repeats around the map; they are decoded here and drawn nowhere.
#[derive(Debug)]
pub struct MapData {
    /// The cells of the map, row by row.
    pub metatiles: Vec<MapMetatileData>,
    /// The cells of the border block, row by row.
    pub borders: Vec<MapMetatileData>,
}

/// The cells that a map or border file holds: one per two bytes, in file
/// order.
pub open spec fn cells_of(bytes: Seq<u8>) -> Seq<MapMetatileData> {
    Seq::new(bytes.len() / 2, |i: int| MapMetatileData::unpack(u16_at(bytes, 2 * i)))
}

/// Decodes the cells of a file of even length.
fn decode_cells(bytes: &[u8]) -> (cells: Vec<MapMetatileData>)
    requires
        bytes@.len() % 2 == 0,
    ensures
        cells@ == cells_of(bytes@),
{
    let count: usize = bytes.len() / MAP_CELL_SIZE;
    let mut cells: Vec<MapMetatileData> = Vec::new();
    let mut index: usize = 0;
    while index < count
        invariant
            index <= count,
            count == bytes@.len() / 2,
            bytes@.len() % 2 == 0,
            bytes@.len() <= usize::MAX,
            cells@ == Seq::new(index as nat, |i: int| MapMetatileData::unpack(u16_at(bytes@, 2 * i))),
        decreases count - index,
    {
        cells.push(MapMetatileData::from(read_u16_at(bytes, index * MAP_CELL_SIZE)));
        index += 1;
    }
    cells
}

impl MapData {
    /// Decodes a map from the contents of its map file and of its border
    /// file. Each file must hold a whole number of 16-bit cells.
    pub fn from_files(map_data: &[u8], border_data: &[u8]) -> (result: Result<MapData, FormatError>)
        ensures
            match result {
                Ok(data) => {
                    &&& map_data@.len() % 2 == 0
                    &&& border_data@.len() % 2 == 0
                    &&& data.metatiles@ == cells_of(map_data@)
                    &&& data.borders@ == cells_of(border_data@)
                },
                Err(error) => {
                    &&& error == FormatError::OddMapLength
                    &&& (map_data@.len() % 2 == 1 || border_data@.len() % 2 == 1)
                },
            },
    {
        if map_data.len() % 2 == 1 || border_data.len() % 2 == 1 {
            return Err(FormatError::OddMapLength);
        }
        let metatile_data = decode_cells(map_data);
        let border_data = decode_cells(border_data);
        Ok(MapData { metatiles: metatile_data, borders: border_data })
    }
}

/// A map: its cells, and the width and height to read them by. The cell in
/// column `col` of row `row` is cell number `row * width + col`.
///
/// The size is given by the caller and the files do not state one, so it may
/// disagree with the number of cells. `consistent` says that it agrees.
#[derive(Debug)]
pub struct Layout {
    /// The number of rows.
    pub height: u32,
    /// The number of cells in a row.
    pub width: u32,
    /// The cells.
    pub map_data: MapData,
}

impl Layout {
    /// Whether the map holds exactly `width * height` cells.
    pub open spec fn consistent(&self) -> bool {
        self.map_data.metatiles.len() == self.width * self.height
    }

    /// The number of the cell in column `col` of row `row`, or `None` if
    /// the position is outside the declared size or past the cells that are
    /// there.
    pub open spec fn cell_index(&self, row: u32, col: u32) -> Option<int> {
        if row < self.height && col < self.width && row * self.width + col
            < self.map_data.metatiles.len() {
            Some(row * self.width + col)
        } else {
            None
        }
    }

    /// In a map that holds as many cells as its size says, a position has a
    /// cell exactly when it lies within the size.
    pub proof fn lemma_consistent_bounds(&self, row: u32, col: u32)
        requires
            self.consistent(),
        ensures
            self.cell_index(row, col) is Some <==> row < self.height && col < self.width,
    {
        if row < self.height && col < self.width {
            assert(row * self.width + col < self.width * self.height) by (nonlinear_arith)
                requires
                    0 <= row < self.height,
                    0 <= col < self.width,
            ;
        }
    }

    /// Decodes a map of the given size from the contents of its map file
    /// and of its border file.
    pub fn load(width: u32, height: u32, map_data: &[u8], border_data: &[u8]) -> (result: Result<
        Layout,
        FormatError,
    >)
        ensures
            match result {
                Ok(layout) => {
                    &&& layout.width == width
                    &&& layout.height == height
                    &&& map_data@.len() % 2 == 0
                    &&& border_data@.len() % 2 == 0
                    &&& layout.map_data.metatiles@ == cells_of(map_data@)
                    &&& layout.map_data.borders@ == cells_of(border_data@)
                },
                Err(error) => {
                    &&& error == FormatError::OddMapLength
                    &&& (map_data@.len() % 2 == 1 || border_data@.len() % 2 == 1)
                },
            },
    {
        match MapData::from_files(map_data, border_data) {
            Ok(map_data) => Ok(Layout { width, height, map_data }),
            Err(error) => Err(error),
        }
    }

    fn tile_idx(&self, row: u32, col: u32) -> (index: Option<usize>)
        ensures
            match index {
                Some(i) => self.cell_index(row, col) == Some(i as int),
                None => self.cell_index(row, col) is None,
            },
    {
        if row >= self.height || col >= self.width {
            None
        } else {
            assert(row * self.width <= 0xffff_ffff * 0xffff_ffff) by (nonlinear_arith)
                requires
                    0 <= row <= 0xffff_ffff,
                    0 <= self.width <= 0xffff_ffff,
            ;
            let idx: u64 = row as u64 * self.width as u64 + col as u64;
            if idx < self.map_data.metatiles.len() as u64 {
                Some(idx as usize)
            } else {
                None
            }
        }
    }

    /// The cell in column `col` of row `row`, or `None` if the map has no
    /// cell there.
    pub fn get_metatile(&self, row: u32, col: u32) -> (cell: Option<MapMetatileData>)
        ensures
            match cell {
                Some(data) => self.cell_index(row, col) matches Some(i)
                    && data == self.map_data.metatiles[i],
                None => self.cell_index(row, col) is None,
            },
    {
        match self.tile_idx(row, col) {
            Some(idx) => Some(self.map_data.metatiles[idx]),
            None => None,
        }
    }

    /// The cell in column `col` of row `row`, to be changed in place, or
    /// `None` if the map has no cell there. Nothing but that cell can change
    /// through the result.
    pub fn get_metatile_mut(&mut self, row: u32, col: u32) -> (cell: Option<&mut MapMetatileData>)
        ensures
            match cell {
                Some(data) => {
                    &&& old(self).cell_index(row, col) matches Some(i)
                    &&& *data == old(self).map_data.metatiles[i]
                    &&& final(self).map_data.metatiles@ == old(self).map_data.metatiles@.update(
                        i,
                        *final(data),
                    )
                    &&& final(self).map_data.borders == old(self).map_data.borders
                    &&& final(self).width == old(self).width
                    &&& final(self).height == old(self).height
                },
                None => old(self).cell_index(row, col) is None && *final(self) == *old(self),
            },
    {
        match self.tile_idx(row, col) {
            Some(idx) => Some(&mut self.map_data.metatiles[idx]),
            None => None,
        }
    }
}

} // verus!
