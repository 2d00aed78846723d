//! Drawing: tiles through palettes, and metatiles from their two layers of
//! tiles.

use crate::atlas::TilesetImage;
use crate::map::Layout;
use crate::raster::{is_grid, Rgb, RgbRaster, Rgba, RgbaRaster};
use crate::tileset::{LayoutTileset, Metatile, TileData, Tileset};
use crate::{METATILE_DIMENSION, PRIMARY_TILE_COUNT, TILE_DIMENSION};
use vstd::prelude::*;

verus! {

/// The color that `palette` gives the pixel value `value`. The value 0 is
/// marked transparent by an alpha of 0; every other value is opaque.
pub open spec fn colored(value: u8, palette: Seq<Rgb>) -> Rgba {
    let color = palette[value as int];
    (color.0, color.1, color.2, if value == 0 {
        0u8
    } else {
        255u8
    })
}

/// The color of `pixel` without its alpha channel.
pub open spec fn opaque(pixel: Rgba) -> Rgb {
    (pixel.0, pixel.1, pixel.2)
}

/// Position `i` of a run of eight as read in order, or as read in reverse
/// order when `flip` is set.
pub open spec fn oriented(i: int, flip: bool) -> int {
    if flip {
        7 - i
    } else {
        i
    }
}

/// The 8 by 8 tile with the pixel values `values`, drawn with `palette`.
/// A vertical flip reads the rows of `values` in reverse order, a horizontal
/// flip the columns.
pub open spec fn colored_tile(
    values: Seq<Seq<u8>>,
    palette: Seq<Rgb>,
    flip_vertical: bool,
    flip_horizontal: bool,
) -> Seq<Seq<Rgba>> {
    Seq::new(
        8,
        |row: int|
            Seq::new(
                8,
                |col: int|
                    colored(
                        values[oriented(row, flip_vertical)][oriented(col, flip_horizontal)],
                        palette,
                    ),
            ),
    )
}

impl Tileset {
    /// Tile `tile_id` of `atlas`, oriented by the two flips and drawn with
    /// palette `palette_number` of this tileset; `None` if the atlas has no
    /// such tile or the tileset no such palette.
    pub open spec fn tile_image(
        &self,
        tile_id: int,
        flip_vertical: bool,
        flip_horizontal: bool,
        palette_number: int,
        atlas: &TilesetImage,
    ) -> Option<Seq<Seq<Rgba>>> {
        if 0 <= tile_id < atlas.tile_count() && 0 <= palette_number < self.palettes.len() {
            Some(
                colored_tile(
                    atlas.tile(tile_id),
                    self.palettes[palette_number]@,
                    flip_vertical,
                    flip_horizontal,
                ),
            )
        } else {
            None
        }
    }

    /// A horizontal flip mirrors a tile: its columns come out in exactly the
    /// reverse order, whatever the other arguments are.
    pub proof fn lemma_horizontal_flip_mirrors(
        &self,
        tile_id: int,
        flip_vertical: bool,
        palette_number: int,
        atlas: &TilesetImage,
    )
        ensures
            match (
                self.tile_image(tile_id, flip_vertical, true, palette_number, atlas),
                self.tile_image(tile_id, flip_vertical, false, palette_number, atlas),
            ) {
                (Some(flipped), Some(plain)) => forall|row: int, col: int|
                    0 <= row < 8 && 0 <= col < 8 ==> #[trigger] flipped[row][col] == plain[row][7
                        - col],
                (None, None) => true,
                _ => false,
            },
    {
    }

    /// A vertical flip mirrors a tile: its rows come out in exactly the
    /// reverse order, whatever the other arguments are.
    pub proof fn lemma_vertical_flip_mirrors(
        &self,
        tile_id: int,
        flip_horizontal: bool,
        palette_number: int,
        atlas: &TilesetImage,
    )
        ensures
            match (
                self.tile_image(tile_id, true, flip_horizontal, palette_number, atlas),
                self.tile_image(tile_id, false, flip_horizontal, palette_number, atlas),
            ) {
                (Some(flipped), Some(plain)) => forall|row: int, col: int|
                    0 <= row < 8 && 0 <= col < 8 ==> #[trigger] flipped[row][col] == plain[7
                        - row][col],
                (None, None) => true,
                _ => false,
            },
    {
    }

    /// Draws tile `tile_id` of `tileset_image` with palette `palette_number`
    /// of this tileset, reading its rows in reverse order for a vertical
    /// flip and its columns in reverse order for a horizontal flip. Pixels
    /// of value 0 get an alpha of 0, the others an alpha of 255.
    ///
    /// A tile id past the atlas or a palette number past the palettes is a
    /// reference that cannot be followed: the result is `None` and the
    /// caller leaves the tile's place undrawn.
    pub fn get_tile_image(
        &self,
        tile_id: usize,
        flip_vertical: bool,
        flip_horizontal: bool,
        palette_number: usize,
        tileset_image: &TilesetImage,
    ) -> (image: Option<RgbaRaster>)
        ensures
            match image {
                Some(raster) => self.tile_image(
                    tile_id as int,
                    flip_vertical,
                    flip_horizontal,
                    palette_number as int,
                    tileset_image,
                ) == Some(raster@),
                None => self.tile_image(
                    tile_id as int,
                    flip_vertical,
                    flip_horizontal,
                    palette_number as int,
                    tileset_image,
                ) is None,
            },
    {
        let gray_tile = match tileset_image.get_tile(tile_id) {
            Some(tile) => tile,
            None => {
                return None;
            },
        };
        if palette_number >= self.palettes.len() {
            return None;
        }
        let palette = &self.palettes[palette_number];
        let ghost values = tileset_image.tile(tile_id as int);
        let ghost target = colored_tile(values, palette@, flip_vertical, flip_horizontal);
        let mut tile_image = RgbaRaster::new(TILE_DIMENSION, TILE_DIMENSION);
        for row in 0..TILE_DIMENSION
            invariant
                gray_tile@ == values,
                values == tileset_image.tile(tile_id as int),
                target == colored_tile(values, palette@, flip_vertical, flip_horizontal),
                is_grid(tile_image@, 8, 8),
                forall|r: int, c: int|
                    0 <= r < row && 0 <= c < 8 ==> #[trigger] tile_image@[r][c] == target[r][c],
        {
            for col in 0..TILE_DIMENSION
                invariant
                    0 <= row < 8,
                    gray_tile@ == values,
                    values == tileset_image.tile(tile_id as int),
                    target == colored_tile(values, palette@, flip_vertical, flip_horizontal),
                    is_grid(tile_image@, 8, 8),
                    forall|r: int, c: int|
                        0 <= r < row && 0 <= c < 8 ==> #[trigger] tile_image@[r][c] == target[r][c],
                    forall|c: int|
                        0 <= c < col ==> #[trigger] tile_image@[row as int][c]
                            == target[row as int][c],
            {
                let tile_row: u32 = if !flip_vertical {
                    row
                } else {
                    TILE_DIMENSION - 1 - row
                };
                let tile_col: u32 = if !flip_horizontal {
                    col
                } else {
                    TILE_DIMENSION - 1 - col
                };
                let value: u8 = gray_tile.get(tile_col, tile_row).unwrap();
                proof {
                    tileset_image.lemma_tile_pixel_bound(
                        tile_id as int,
                        tile_col as int,
                        tile_row as int,
                    );
                }
                let color = palette.get(value as usize);
                let alpha: u8 = if value == 0 {
                    0
                } else {
                    255
                };
                tile_image.put(col, row, (color.0, color.1, color.2, alpha));
            }
        }
        assert(tile_image@ =~~= target);
        Some(tile_image)
    }
}

/// `image` after the tile `tile` has been drawn on the quarter in column
/// `col` and row `row` of a metatile. On the top layer the transparent
/// pixels of `tile` leave what was there; on the bottom layer every pixel of
/// `tile` is drawn.
spec fn with_tile(
    image: Seq<Seq<Rgb>>,
    tile: Seq<Seq<Rgba>>,
    col: int,
    row: int,
    top_layer: bool,
) -> Seq<Seq<Rgb>> {
    Seq::new(
        16,
        |y: int|
            Seq::new(
                16,
                |x: int|
                    if 8 * col <= x < 8 * col + 8 && 8 * row <= y < 8 * row + 8 && !(top_layer
                        && tile[y - 8 * row][x - 8 * col].3 == 0) {
                        opaque(tile[y - 8 * row][x - 8 * col])
                    } else {
                        image[y][x]
                    },
            ),
    )
}

/// Draws an 8 by 8 tile on one quarter of a 16 by 16 metatile image.
fn draw_tile(image: &mut RgbRaster, tile: &RgbaRaster, col: u32, row: u32, top_layer: bool)
    requires
        is_grid(old(image)@, 16, 16),
        is_grid(tile@, 8, 8),
        col < 2,
        row < 2,
    ensures
        final(image)@ == with_tile(old(image)@, tile@, col as int, row as int, top_layer),
{
    let ghost before = image@;
    let ghost target = with_tile(before, tile@, col as int, row as int, top_layer);
    for pixel_row in 0..TILE_DIMENSION
        invariant
            col < 2,
            row < 2,
            is_grid(before, 16, 16),
            is_grid(tile@, 8, 8),
            is_grid(image@, 16, 16),
            target == with_tile(before, tile@, col as int, row as int, top_layer),
            forall|y: int, x: int|
                0 <= y < 16 && 0 <= x < 16 ==> #[trigger] image@[y][x] == (if 8 * row <= y < 8
                    * row + pixel_row {
                    target[y][x]
                } else {
                    before[y][x]
                }),
    {
        for pixel_col in 0..TILE_DIMENSION
            invariant
                col < 2,
                row < 2,
                0 <= pixel_row < 8,
                is_grid(before, 16, 16),
                is_grid(tile@, 8, 8),
                is_grid(image@, 16, 16),
                target == with_tile(before, tile@, col as int, row as int, top_layer),
                forall|y: int, x: int|
                    0 <= y < 16 && 0 <= x < 16 ==> #[trigger] image@[y][x] == (if 8 * row <= y < 8
                        * row + pixel_row || (y == 8 * row + pixel_row && x < 8 * col
                        + pixel_col) {
                        target[y][x]
                    } else {
                        before[y][x]
                    }),
        {
            let output_row: u32 = TILE_DIMENSION * row + pixel_row;
            let output_col: u32 = TILE_DIMENSION * col + pixel_col;
            let pixel = tile.get(pixel_col, pixel_row).unwrap();
            if !(top_layer && pixel.3 == 0) {
                image.put(output_col, output_row, (pixel.0, pixel.1, pixel.2));
            }
        }
    }
    assert(image@ =~~= target);
}

impl LayoutTileset {
    /// The number of metatile ids that the two tilesets answer to.
    pub open spec fn metatile_count(&self) -> nat {
        (self.primary.metatiles.len() + self.secondary.metatiles.len()) as nat
    }

    /// The metatile with the given id in the shared id space: the primary
    /// metatiles come first, and the secondary ones follow, counted from
    /// the number of primary metatiles.
    pub open spec fn metatile(&self, metatile_id: int) -> Option<Metatile> {
        if 0 <= metatile_id < self.primary.metatiles.len() {
            Some(self.primary.metatiles[metatile_id])
        } else if self.primary.metatiles.len() <= metatile_id < self.metatile_count() {
            Some(self.secondary.metatiles[metatile_id - self.primary.metatiles.len()])
        } else {
            None
        }
    }

    /// The image of the tile that `tile` refers to. An id below
    /// `PRIMARY_TILE_COUNT` selects from the primary atlas and palettes; any
    /// other id selects from the secondary ones, counted from
    /// `PRIMARY_TILE_COUNT`. `None` if the reference cannot be followed.
    pub open spec fn tile_image(&self, tile: TileData) -> Option<Seq<Seq<Rgba>>> {
        if tile.tile_id < PRIMARY_TILE_COUNT {
            self.primary.tile_image(
                tile.tile_id as int,
                tile.flip_vertical,
                tile.flip_horizontal,
                tile.palette_number as int,
                &self.primary.tile_image,
            )
        } else {
            self.secondary.tile_image(
                tile.tile_id - PRIMARY_TILE_COUNT,
                tile.flip_vertical,
                tile.flip_horizontal,
                tile.palette_number as int,
                &self.secondary.tile_image,
            )
        }
    }

    /// A tile reference with the horizontal flip set is drawn as the mirror
    /// image of the same reference without it: column `col` of the one is
    /// column `7 - col` of the other. Both can be followed or neither can.
    pub proof fn lemma_flip_horizontal_mirrors(&self, tile: TileData)
        requires
            tile.flip_horizontal,
        ensures
            match (
                self.tile_image(tile),
                self.tile_image(TileData { flip_horizontal: false, ..tile }),
            ) {
                (Some(flipped), Some(plain)) => forall|row: int, col: int|
                    0 <= row < 8 && 0 <= col < 8 ==> #[trigger] flipped[row][col] == plain[row][7
                        - col],
                (None, None) => true,
                _ => false,
            },
    {
    }

    /// A tile reference with the vertical flip set is drawn as the mirror
    /// image of the same reference without it: row `row` of the one is row
    /// `7 - row` of the other. Both can be followed or neither can.
    pub proof fn lemma_flip_vertical_mirrors(&self, tile: TileData)
        requires
            tile.flip_vertical,
        ensures
            match (
                self.tile_image(tile),
                self.tile_image(TileData { flip_vertical: false, ..tile }),
            ) {
                (Some(flipped), Some(plain)) => forall|row: int, col: int|
                    0 <= row < 8 && 0 <= col < 8 ==> #[trigger] flipped[row][col] == plain[7
                        - row][col],
                (None, None) => true,
                _ => false,
            },
    {
    }

    /// The slot, within one layer of a metatile, of the tile that covers the
    /// pixel in column `x` of row `y`.
    pub open spec fn quarter(x: int, y: int) -> int {
        2 * (y / 8) + x / 8
    }

    /// The pixel in column `x` of row `y` of the bottom layer of `metatile`.
    /// The layer is opaque: a pixel of value 0 shows the first color of its
    /// palette. Where the tile cannot be found the pixel is black.
    pub open spec fn bottom_pixel(&self, metatile: Metatile, x: int, y: int) -> Rgb {
        match self.tile_image(metatile.tiles[Self::quarter(x, y)]) {
            Some(tile) => opaque(tile[y % 8][x % 8]),
            None => (0u8, 0u8, 0u8),
        }
    }

    /// The pixel in column `x` of row `y` of the top layer of `metatile`, or
    /// `None` where that layer shows what is below it: where the pixel value
    /// is 0, and where the tile cannot be found.
    pub open spec fn top_pixel(&self, metatile: Metatile, x: int, y: int) -> Option<Rgb> {
        match self.tile_image(metatile.tiles[4 + Self::quarter(x, y)]) {
            Some(tile) => if tile[y % 8][x % 8].3 == 0 {
                None
            } else {
                Some(opaque(tile[y % 8][x % 8]))
            },
            None => None,
        }
    }

    /// The pixel in column `x` of row `y` of `metatile`: that of the top
    /// layer where it has one, else that of the bottom layer.
    pub open spec fn metatile_pixel(&self, metatile: Metatile, x: int, y: int) -> Rgb {
        match self.top_pixel(metatile, x, y) {
            Some(color) => color,
            None => self.bottom_pixel(metatile, x, y),
        }
    }

    /// The 16 by 16 image of `metatile`, by rows.
    pub open spec fn metatile_image(&self, metatile: Metatile) -> Seq<Seq<Rgb>> {
        Seq::new(16, |y: int| Seq::new(16, |x: int| self.metatile_pixel(metatile, x, y)))
    }

    /// The 16 by 16 image of the bottom layer of `metatile` alone, by rows.
    pub open spec fn bottom_layer_image(&self, metatile: Metatile) -> Seq<Seq<Rgb>> {
        Seq::new(16, |y: int| Seq::new(16, |x: int| self.bottom_pixel(metatile, x, y)))
    }

    /// The pixel values of the tile that `tile` refers to, as the atlas
    /// holds them; `None` if the reference cannot be followed.
    pub open spec fn tile_values(&self, tile: TileData) -> Option<Seq<Seq<u8>>> {
        if self.tile_image(tile) is None {
            None
        } else if tile.tile_id < PRIMARY_TILE_COUNT {
            Some(self.primary.tile_image.tile(tile.tile_id as int))
        } else {
            Some(self.secondary.tile_image.tile(tile.tile_id - PRIMARY_TILE_COUNT))
        }
    }

    /// Whether every pixel of the top layer of `metatile` has the value 0,
    /// as far as its tiles can be found.
    pub open spec fn top_layer_clear(&self, metatile: Metatile) -> bool {
        forall|slot: int, row: int, col: int|
            4 <= slot < 8 && 0 <= row < 8 && 0 <= col < 8 && self.tile_values(
                metatile.tiles[slot],
            ) is Some ==> #[trigger] self.tile_values(metatile.tiles[slot]).unwrap()[row][col]
                == 0
    }

    /// A top layer of nothing but the pixel value 0 lets the bottom layer
    /// through everywhere: the metatile looks as its bottom layer alone
    /// does.
    pub proof fn lemma_clear_top_shows_bottom(&self, metatile: Metatile)
        requires
            self.top_layer_clear(metatile),
        ensures
            self.metatile_image(metatile) == self.bottom_layer_image(metatile),
    {
        assert forall|x: int, y: int| 0 <= x < 16 && 0 <= y < 16 implies self.top_pixel(
            metatile,
            x,
            y,
        ) is None by {
            let slot = 4 + Self::quarter(x, y);
            let tile = metatile.tiles[slot];
            if self.tile_image(tile) is Some {
                let values = self.tile_values(tile).unwrap();
                let row = oriented(y % 8, tile.flip_vertical);
                let col = oriented(x % 8, tile.flip_horizontal);
                assert(values[row][col] == 0);
            }
        }
        assert(self.metatile_image(metatile) =~~= self.bottom_layer_image(metatile));
    }

    /// The pixel in column `x` of row `y` of the image of `metatile` once
    /// the first `steps` of its eight tiles have been drawn. The tiles are
    /// drawn layer by layer, the bottom one first, and within a layer
    /// column by column.
    spec fn partial_pixel(&self, metatile: Metatile, steps: int, x: int, y: int) -> Rgb {
        let turn = 2 * (x / 8) + y / 8;
        if steps > 4 + turn && self.top_pixel(metatile, x, y) is Some {
            self.top_pixel(metatile, x, y).unwrap()
        } else if steps > turn {
            self.bottom_pixel(metatile, x, y)
        } else {
            (0u8, 0u8, 0u8)
        }
    }

    /// Drawing the next tile in order takes every pixel from its state after
    /// `steps` tiles to its state after `steps + 1` tiles.
    proof fn lemma_partial_step(
        &self,
        metatile: Metatile,
        layer: int,
        col: int,
        row: int,
        x: int,
        y: int,
    )
        requires
            0 <= layer < 2,
            0 <= col < 2,
            0 <= row < 2,
            0 <= x < 16,
            0 <= y < 16,
        ensures
            ({
                let steps = 4 * layer + 2 * col + row;
                let before = self.partial_pixel(metatile, steps, x, y);
                let inside = 8 * col <= x < 8 * col + 8 && 8 * row <= y < 8 * row + 8;
                let after = match self.tile_image(metatile.tiles[4 * layer + 2 * row + col]) {
                    Some(tile) => if inside && !(layer == 1 && tile[y - 8 * row][x - 8 * col].3
                        == 0) {
                        opaque(tile[y - 8 * row][x - 8 * col])
                    } else {
                        before
                    },
                    None => before,
                };
                after == self.partial_pixel(metatile, steps + 1, x, y)
            }),
    {
        let inside = 8 * col <= x < 8 * col + 8 && 8 * row <= y < 8 * row + 8;
        let turn = 2 * (x / 8) + y / 8;
        if inside {
            assert(x / 8 == col && y / 8 == row);
            assert(x % 8 == x - 8 * col && y % 8 == y - 8 * row);
            assert(Self::quarter(x, y) == 2 * row + col);
            assert(turn == 2 * col + row);
        } else {
            assert(x / 8 != col || y / 8 != row);
            assert(0 <= x / 8 < 2 && 0 <= y / 8 < 2);
            assert(turn != 2 * col + row);
        }
    }

    /// Draws the tile in slot `4 * layer + 2 * row + col` of `metatile`,
    /// which is the next one in drawing order.
    fn draw_slot(&self, image: &mut RgbRaster, metatile: &Metatile, layer: u32, col: u32, row: u32)
        requires
            layer < 2,
            col < 2,
            row < 2,
            is_grid(old(image)@, 16, 16),
            forall|y: int, x: int|
                0 <= y < 16 && 0 <= x < 16 ==> #[trigger] old(image)@[y][x] == self.partial_pixel(
                    *metatile,
                    4 * layer + 2 * col + row,
                    x,
                    y,
                ),
        ensures
            is_grid(final(image)@, 16, 16),
            forall|y: int, x: int|
                0 <= y < 16 && 0 <= x < 16 ==> #[trigger] final(image)@[y][x]
                    == self.partial_pixel(*metatile, 4 * layer + 2 * col + row + 1, x, y),
    {
        let top_layer = layer == 1;
        let tile_idx: usize = (layer * 4 + row * 2 + col) as usize;
        let tile = metatile.tiles[tile_idx];
        let tileset_tile_id: u16 = tile.tile_id;
        let tile_image = if tileset_tile_id < PRIMARY_TILE_COUNT {
            self.primary.get_tile_image(
                tile.tile_id as usize,
                tile.flip_vertical,
                tile.flip_horizontal,
                tile.palette_number as usize,
                &self.primary.tile_image,
            )
        } else {
            self.secondary.get_tile_image(
                (tile.tile_id - PRIMARY_TILE_COUNT) as usize,
                tile.flip_vertical,
                tile.flip_horizontal,
                tile.palette_number as usize,
                &self.secondary.tile_image,
            )
        };
        let ghost before = image@;
        if let Some(tile_image) = tile_image {
            assert(self.tile_image(tile) == Some(tile_image@));
            draw_tile(image, &tile_image, col, row, top_layer);
        } else {
            assert(self.tile_image(tile) is None);
        }
        assert forall|y: int, x: int| 0 <= y < 16 && 0 <= x < 16 implies #[trigger] image@[y][x]
            == self.partial_pixel(*metatile, 4 * layer + 2 * col + row + 1, x, y) by {
            self.lemma_partial_step(*metatile, layer as int, col as int, row as int, x, y);
            assert(before[y][x] == self.partial_pixel(*metatile, 4 * layer + 2 * col + row, x, y));
        }
    }

    /// Draws the metatile with the given id, or returns `None` if neither
    /// tileset has it. Ids below the number of primary metatiles select from
    /// the primary tileset; the ids that follow select from the secondary
    /// tileset, counted from the number of primary metatiles.
    ///
    /// The image is 16 by 16 pixels. The bottom layer is drawn first and is
    /// opaque. The top layer is drawn over it, except where its pixel value
    /// is 0. A tile that cannot be found, or whose palette cannot be found,
    /// is not drawn: its place keeps what was there, black at first.
    pub fn get_metatile_image(&self, metatile_id: u16) -> (image: Option<RgbRaster>)
        ensures
            match image {
                Some(raster) => self.metatile(metatile_id as int) matches Some(metatile)
                    && raster@ == self.metatile_image(metatile),
                None => self.metatile(metatile_id as int) is None,
            },
    {
        let metatile_id: usize = metatile_id as usize;
        let end_of_primary: usize = self.primary.metatiles.len();
        let metatile = if metatile_id < end_of_primary {
            self.primary.get_metatile(metatile_id)
        } else if metatile_id - end_of_primary < self.secondary.metatiles.len() {
            self.secondary.get_metatile(metatile_id - end_of_primary)
        } else {
            return None;
        };
        let mut metatile_image = RgbRaster::new(METATILE_DIMENSION, METATILE_DIMENSION);
        for layer in 0u32..2
            invariant
                is_grid(metatile_image@, 16, 16),
                forall|y: int, x: int|
                    0 <= y < 16 && 0 <= x < 16 ==> #[trigger] metatile_image@[y][x]
                        == self.partial_pixel(*metatile, 4 * layer, x, y),
        {
            for col in 0u32..2
                invariant
                    layer < 2,
                    is_grid(metatile_image@, 16, 16),
                    forall|y: int, x: int|
                        0 <= y < 16 && 0 <= x < 16 ==> #[trigger] metatile_image@[y][x]
                            == self.partial_pixel(*metatile, 4 * layer + 2 * col, x, y),
            {
                for row in 0u32..2
                    invariant
                        layer < 2,
                        col < 2,
                        is_grid(metatile_image@, 16, 16),
                        forall|y: int, x: int|
                            0 <= y < 16 && 0 <= x < 16 ==> #[trigger] metatile_image@[y][x]
                                == self.partial_pixel(*metatile, 4 * layer + 2 * col + row, x, y),
                {
                    self.draw_slot(&mut metatile_image, metatile, layer, col, row);
                }
            }
        }
        assert(metatile_image@ =~~= self.metatile_image(*metatile));
        Some(metatile_image)
    }
}

/// The pixel in column `x` of row `y` of the picture of a map: that of the
/// metatile of the cell it falls in, or black where the cell names a
/// metatile that neither tileset has.
pub open spec fn map_pixel(layout: &Layout, tileset: &LayoutTileset, x: int, y: int) -> Rgb {
    let cell = layout.map_data.metatiles[(y / 16) * layout.width + x / 16];
    match tileset.metatile(cell.metatile_id as int) {
        Some(metatile) => tileset.metatile_pixel(metatile, x % 16, y % 16),
        None => (0u8, 0u8, 0u8),
    }
}

/// The picture of a map, by rows: 16 pixels by 16 for every cell.
pub open spec fn map_image(layout: &Layout, tileset: &LayoutTileset) -> Seq<Seq<Rgb>> {
    Seq::new(
        (16 * layout.height) as nat,
        |y: int| Seq::new((16 * layout.width) as nat, |x: int| map_pixel(layout, tileset, x, y)),
    )
}

/// Whether a map can be drawn: every position within its size has a cell,
/// the sides of the picture fit in 32 bits, and its three samples per
/// pixel fit in a vector.
pub open spec fn drawable(layout: &Layout) -> bool {
    &&& layout.width * layout.height <= layout.map_data.metatiles.len()
    &&& 16 * layout.width <= u32::MAX
    &&& 16 * layout.height <= u32::MAX
    &&& 3 * (16 * layout.width) <= usize::MAX
    &&& 3 * (16 * layout.width) * (16 * layout.height) <= isize::MAX
}

/// The pixel in column `x` of row `y` of the picture of a map while it is
/// drawn row by row: the cells before column `col` of row `row` are done,
/// the others are still black.
spec fn map_pixel_until(
    layout: &Layout,
    tileset: &LayoutTileset,
    row: int,
    col: int,
    x: int,
    y: int,
) -> Rgb {
    if y / 16 < row || (y / 16 == row && x / 16 < col) {
        map_pixel(layout, tileset, x, y)
    } else {
        (0u8, 0u8, 0u8)
    }
}

/// Laying the image of the cell in column `col` of row `row` over the
/// picture takes every pixel to its state with that cell done.
proof fn lemma_cell_drawn(
    layout: &Layout,
    tileset: &LayoutTileset,
    row: int,
    col: int,
    x: int,
    y: int,
)
    requires
        0 <= row < layout.height,
        0 <= col < layout.width,
        0 <= x < 16 * layout.width,
        0 <= y < 16 * layout.height,
    ensures
        ({
            let inside = 16 * row <= y < 16 * row + 16 && 16 * col <= x < 16 * col + 16;
            &&& inside ==> y / 16 == row && x / 16 == col && y % 16 == y - 16 * row && x % 16 == x
                - 16 * col
            &&& !inside ==> map_pixel_until(layout, tileset, row, col, x, y) == map_pixel_until(
                layout,
                tileset,
                row,
                col + 1,
                x,
                y,
            )
            &&& inside ==> map_pixel_until(layout, tileset, row, col, x, y) == (0u8, 0u8, 0u8)
            &&& inside ==> map_pixel_until(layout, tileset, row, col + 1, x, y) == map_pixel(
                layout,
                tileset,
                x,
                y,
            )
        }),
{
}

/// Draws a map: the metatile of every cell, at 16 pixels by 16 per cell, row
/// by row. A cell that names a metatile which neither tileset has is left
/// black. The result is `None` if the map cannot be drawn: if it lacks a cell
/// within its size, or if the picture would be too large to address.
pub fn render_map(layout: &Layout, tileset: &LayoutTileset) -> (image: Option<RgbRaster>)
    ensures
        image is Some <==> drawable(layout),
        image matches Some(raster) ==> raster@ == map_image(layout, tileset),
{
    let width: u32 = layout.width;
    let height: u32 = layout.height;
    if width > u32::MAX / METATILE_DIMENSION || height > u32::MAX / METATILE_DIMENSION {
        return None;
    }
    let pixel_width: u32 = METATILE_DIMENSION * width;
    let pixel_height: u32 = METATILE_DIMENSION * height;
    assert(width * height >= 0) by (nonlinear_arith)
        requires
            width >= 0,
            height >= 0,
    ;
    let row_samples: usize = match (pixel_width as usize).checked_mul(3) {
        Some(samples) => samples,
        None => {
            return None;
        },
    };
    assert(3 * pixel_width * pixel_height == row_samples * pixel_height) by (nonlinear_arith)
        requires
            row_samples == 3 * pixel_width,
    ;
    assert(row_samples * pixel_height >= 0) by (nonlinear_arith)
        requires
            row_samples >= 0,
            pixel_height >= 0,
    ;
    match row_samples.checked_mul(pixel_height as usize) {
        Some(samples) => {
            if samples > isize::MAX as usize {
                return None;
            }
        },
        None => {
            return None;
        },
    }
    let cells: usize = match (width as usize).checked_mul(height as usize) {
        Some(cells) => cells,
        None => {
            return None;
        },
    };
    if cells > layout.map_data.metatiles.len() {
        return None;
    }
    let mut map_image = RgbRaster::new(pixel_width, pixel_height);
    for row in 0..height
        invariant
            width == layout.width,
            height == layout.height,
            drawable(layout),
            pixel_width == 16 * width,
            pixel_height == 16 * height,
            is_grid(map_image@, pixel_width as int, pixel_height as int),
            forall|y: int, x: int|
                0 <= y < pixel_height && 0 <= x < pixel_width ==> #[trigger] map_image@[y][x]
                    == map_pixel_until(layout, tileset, row as int, 0, x, y),
    {
        for col in 0..width
            invariant
                0 <= row < height,
                width == layout.width,
                height == layout.height,
                drawable(layout),
                pixel_width == 16 * width,
                pixel_height == 16 * height,
                is_grid(map_image@, pixel_width as int, pixel_height as int),
                forall|y: int, x: int|
                    0 <= y < pixel_height && 0 <= x < pixel_width ==> #[trigger] map_image@[y][x]
                        == map_pixel_until(layout, tileset, row as int, col as int, x, y),
        {
            assert(row * width + col < width * height) by (nonlinear_arith)
                requires
                    0 <= row < height,
                    0 <= col < width,
            ;
            let metatile_data = layout.get_metatile(row, col).unwrap();
            let metatile_left_pixel: u32 = col * METATILE_DIMENSION;
            let metatile_top_pixel: u32 = row * METATILE_DIMENSION;
            let ghost before = map_image@;
            let drawn = tileset.get_metatile_image(metatile_data.metatile_id);
            if let Some(metatile_image) = drawn {
                map_image.copy_from(&metatile_image, metatile_left_pixel, metatile_top_pixel);
            }
            assert forall|y: int, x: int|
                0 <= y < pixel_height && 0 <= x < pixel_width implies #[trigger] map_image@[y][x]
                == map_pixel_until(layout, tileset, row as int, col + 1, x, y) by {
                lemma_cell_drawn(layout, tileset, row as int, col as int, x, y);
                assert(before[y][x] == map_pixel_until(layout, tileset, row as int, col as int, x, y));
            }
        }
        assert forall|y: int, x: int|
            0 <= y < pixel_height && 0 <= x < pixel_width implies #[trigger] map_image@[y][x]
            == map_pixel_until(layout, tileset, row + 1, 0, x, y) by {
            assert(map_image@[y][x] == map_pixel_until(
                layout,
                tileset,
                row as int,
                width as int,
                x,
                y,
            ));
            assert(x / 16 < width);
        }
    }
    assert(map_image@ =~~= self::map_image(layout, tileset));
    Some(map_image)
}

} // verus!
