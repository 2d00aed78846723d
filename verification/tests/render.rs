use frlg_render::atlas::TilesetImage;
use frlg_render::compose::render_map;
use frlg_render::map::Layout;
use frlg_render::palette::Palette;
use frlg_render::raster::RgbRaster;
use frlg_render::tileset::{
    LayerType, LayoutTileset, Metatile, MetatileAttributes, TileData, Tileset,
};

const BLACK: (u8, u8, u8) = (0, 0, 0);

fn first_pattern(x: usize, y: usize) -> u8 {
    ((x * 7 + y * 3 + x / 8 + y / 8) % 16) as u8
}

fn second_pattern(x: usize, y: usize) -> u8 {
    ((x + 2 * y + 1 + 5 * (x / 8)) % 16) as u8
}

fn clear_then_pattern(x: usize, y: usize) -> u8 {
    if x < 8 {
        0
    } else {
        first_pattern(x, y)
    }
}

fn numbered(x: usize, y: usize) -> u8 {
    (((y / 8) * 32 + x / 8) % 15 + 1) as u8
}

fn atlas(columns: usize, rows: usize, value: fn(usize, usize) -> u8) -> TilesetImage {
    let mut data = Vec::new();
    for y in 0..rows * 8 {
        for x in (0..columns * 8).step_by(2) {
            data.push(value(x, y) << 4 | value(x + 1, y));
        }
    }
    TilesetImage::new(data, columns, rows).unwrap()
}

fn palette(seed: u8) -> Palette {
    let mut colors = [(0u8, 0u8, 0u8); 16];
    for entry in 0..16u8 {
        colors[entry as usize] = (seed, 10 * entry + 1, 255 - entry);
    }
    Palette { colors }
}

fn color(seed: u8, value: u8) -> (u8, u8, u8) {
    (seed, 10 * value + 1, 255 - value)
}

fn tile(tile_id: u16, palette_number: u8) -> TileData {
    TileData { tile_id, flip_horizontal: false, flip_vertical: false, palette_number }
}

fn flipped(tile_id: u16, palette_number: u8, horizontal: bool, vertical: bool) -> TileData {
    TileData { tile_id, flip_horizontal: horizontal, flip_vertical: vertical, palette_number }
}

const MISSING: u16 = 639;

fn metatile(bottom: [TileData; 4], top: [TileData; 4]) -> Metatile {
    Metatile {
        tiles: [bottom[0], bottom[1], bottom[2], bottom[3], top[0], top[1], top[2], top[3]],
        attributes: MetatileAttributes { layer_type: LayerType::MiddleTop },
    }
}

fn no_top() -> [TileData; 4] {
    [tile(MISSING, 0); 4]
}

/// A primary tileset of two tiles and two palettes, and a secondary one of
/// one tile and three palettes.
fn small(primary: Vec<Metatile>, secondary: Vec<Metatile>) -> LayoutTileset {
    LayoutTileset {
        primary: Tileset {
            metatiles: primary,
            tile_image: atlas(2, 1, first_pattern),
            palettes: vec![palette(10), palette(20)],
        },
        secondary: Tileset {
            metatiles: secondary,
            tile_image: atlas(1, 1, second_pattern),
            palettes: vec![palette(110), palette(120), palette(130)],
        },
    }
}

fn pixels(image: &RgbRaster, width: u32, height: u32) -> Vec<Vec<(u8, u8, u8)>> {
    assert_eq!(image.pixel(width, 0), None);
    assert_eq!(image.pixel(0, height), None);
    (0..height).map(|y| (0..width).map(|x| image.pixel(x, y).unwrap()).collect()).collect()
}

#[test]
fn tile_is_drawn_through_its_palette() {
    let tilesets = small(Vec::new(), Vec::new());
    let primary = &tilesets.primary;
    let image = primary.get_tile_image(1, false, false, 1, &primary.tile_image).unwrap();
    for row in 0..8u32 {
        for col in 0..8u32 {
            let value = first_pattern(8 + col as usize, row as usize);
            let alpha: u8 = if value == 0 { 0 } else { 255 };
            let (red, green, blue) = color(20, value);
            assert_eq!(image.pixel(col, row), Some((red, green, blue, alpha)));
        }
    }
    assert_eq!(image.pixel(8, 0), None);
    assert_eq!(image.pixel(0, 8), None);
    // first_pattern(9, 0) is 0 and first_pattern(8, 0) is 9
    assert_eq!(image.pixel(1, 0), Some((20, 1, 255, 0)));
    assert_eq!(image.pixel(0, 0), Some((20, 91, 246, 255)));
}

#[test]
fn tile_is_drawn_with_the_palettes_of_the_tileset_asked() {
    let tilesets = small(Vec::new(), Vec::new());
    let image = tilesets
        .secondary
        .get_tile_image(0, false, false, 2, &tilesets.secondary.tile_image)
        .unwrap();
    // second_pattern(0, 0) is 1
    assert_eq!(image.pixel(0, 0), Some((130, 11, 254, 255)));
    let image = tilesets
        .secondary
        .get_tile_image(1, false, false, 2, &tilesets.primary.tile_image)
        .unwrap();
    assert_eq!(image.pixel(0, 0), Some((130, 91, 246, 255)));
}

#[test]
fn horizontal_flip_reverses_the_columns() {
    let tilesets = small(Vec::new(), Vec::new());
    let primary = &tilesets.primary;
    for vertical in [false, true] {
        let plain = primary.get_tile_image(0, vertical, false, 0, &primary.tile_image).unwrap();
        let mirror = primary.get_tile_image(0, vertical, true, 0, &primary.tile_image).unwrap();
        for row in 0..8u32 {
            for col in 0..8u32 {
                assert_eq!(mirror.pixel(col, row), plain.pixel(7 - col, row));
            }
        }
    }
    let mirror = primary.get_tile_image(0, false, true, 0, &primary.tile_image).unwrap();
    let (red, green, blue) = color(10, first_pattern(7, 2));
    assert_eq!(mirror.pixel(0, 2), Some((red, green, blue, 255)));
}

#[test]
fn vertical_flip_reverses_the_rows() {
    let tilesets = small(Vec::new(), Vec::new());
    let primary = &tilesets.primary;
    for horizontal in [false, true] {
        let plain = primary.get_tile_image(1, false, horizontal, 0, &primary.tile_image).unwrap();
        let mirror = primary.get_tile_image(1, true, horizontal, 0, &primary.tile_image).unwrap();
        for row in 0..8u32 {
            for col in 0..8u32 {
                assert_eq!(mirror.pixel(col, row), plain.pixel(col, 7 - row));
            }
        }
    }
    let mirror = primary.get_tile_image(1, true, false, 0, &primary.tile_image).unwrap();
    let (red, green, blue) = color(10, first_pattern(11, 7));
    assert_eq!(mirror.pixel(3, 0), Some((red, green, blue, 255)));
}

#[test]
fn both_flips_turn_the_tile_half_around() {
    let tilesets = small(Vec::new(), Vec::new());
    let primary = &tilesets.primary;
    let plain = primary.get_tile_image(0, false, false, 1, &primary.tile_image).unwrap();
    let turned = primary.get_tile_image(0, true, true, 1, &primary.tile_image).unwrap();
    for row in 0..8u32 {
        for col in 0..8u32 {
            assert_eq!(turned.pixel(col, row), plain.pixel(7 - col, 7 - row));
        }
    }
}

#[test]
fn tile_or_palette_that_is_not_there_gives_no_image() {
    let tilesets = small(Vec::new(), Vec::new());
    let primary = &tilesets.primary;
    assert!(primary.get_tile_image(1, false, false, 1, &primary.tile_image).is_some());
    assert!(primary.get_tile_image(2, false, false, 1, &primary.tile_image).is_none());
    assert!(primary.get_tile_image(1, false, false, 2, &primary.tile_image).is_none());
    assert!(primary.get_tile_image(usize::MAX, true, true, usize::MAX, &primary.tile_image).is_none());
    assert!(primary.get_tile_image(0, false, false, 0, &tilesets.secondary.tile_image).is_some());
    assert!(primary.get_tile_image(1, false, false, 0, &tilesets.secondary.tile_image).is_none());
}

#[test]
fn metatile_ids_run_through_the_primary_tileset_and_then_the_secondary() {
    let primary = vec![
        metatile([tile(0, 0); 4], no_top()),
        metatile([tile(0, 1); 4], no_top()),
    ];
    let secondary = vec![metatile([tile(1, 0); 4], no_top())];
    let tilesets = small(primary, secondary);
    let value = first_pattern(0, 0);
    let image = tilesets.get_metatile_image(0).unwrap();
    assert_eq!(image.pixel(0, 0), Some(color(10, value)));
    let image = tilesets.get_metatile_image(1).unwrap();
    assert_eq!(image.pixel(0, 0), Some(color(20, value)));
    let image = tilesets.get_metatile_image(2).unwrap();
    assert_eq!(image.pixel(0, 0), Some(color(10, first_pattern(8, 0))));
    assert!(tilesets.get_metatile_image(3).is_none());
    assert!(tilesets.get_metatile_image(640).is_none());
    assert!(tilesets.get_metatile_image(642).is_none());
    assert!(tilesets.get_metatile_image(u16::MAX).is_none());
}

#[test]
fn no_metatile_without_metatiles() {
    let tilesets = small(Vec::new(), Vec::new());
    assert!(tilesets.get_metatile_image(0).is_none());
    let only_secondary = small(Vec::new(), vec![metatile([tile(0, 0); 4], no_top())]);
    assert!(only_secondary.get_metatile_image(0).is_some());
    assert!(only_secondary.get_metatile_image(1).is_none());
    let only_primary = small(vec![metatile([tile(0, 0); 4], no_top())], Vec::new());
    assert!(only_primary.get_metatile_image(0).is_some());
    assert!(only_primary.get_metatile_image(1).is_none());
}

#[test]
fn secondary_metatiles_count_from_the_number_of_primary_ones() {
    let mut primary = Vec::new();
    for _ in 0..641 {
        primary.push(metatile([tile(0, 0); 4], no_top()));
    }
    let secondary = vec![
        metatile([tile(0, 1); 4], no_top()),
        metatile([tile(1, 1); 4], no_top()),
    ];
    let tilesets = small(primary, secondary);
    assert_eq!(tilesets.get_metatile_image(640).unwrap().pixel(0, 0), Some(color(10, 0)));
    assert_eq!(tilesets.get_metatile_image(641).unwrap().pixel(0, 0), Some(color(20, 0)));
    assert_eq!(tilesets.get_metatile_image(642).unwrap().pixel(0, 0), Some(color(20, 9)));
    assert!(tilesets.get_metatile_image(643).is_none());
}

#[test]
fn tile_ids_split_at_640_whatever_the_tilesets_hold() {
    let tilesets = LayoutTileset {
        primary: Tileset {
            metatiles: vec![metatile(
                [tile(638, 0), tile(639, 0), tile(640, 0), tile(641, 0)],
                [tile(1023, 0); 4],
            )],
            tile_image: atlas(32, 21, numbered),
            palettes: vec![palette(10)],
        },
        secondary: Tileset {
            metatiles: Vec::new(),
            tile_image: atlas(32, 1, numbered),
            palettes: vec![palette(110)],
        },
    };
    let image = tilesets.get_metatile_image(0).unwrap();
    // Tiles 638 and 639 of the primary atlas: row 19, columns 30 and 31.
    assert_eq!(image.pixel(0, 0), Some(color(10, ((19 * 32 + 30) % 15 + 1) as u8)));
    assert_eq!(image.pixel(8, 0), Some(color(10, ((19 * 32 + 31) % 15 + 1) as u8)));
    // Tiles 0 and 1 of the secondary atlas, not tiles 640 and 641 of the primary one.
    assert_eq!(image.pixel(0, 8), Some(color(110, 1)));
    assert_eq!(image.pixel(8, 8), Some(color(110, 2)));
}

#[test]
fn tiles_fill_their_quarters_layer_by_layer() {
    let bottom = [tile(0, 0), tile(1, 0), tile(0, 1), tile(640, 2)];
    let tilesets = small(vec![metatile(bottom, no_top())], Vec::new());
    let image = pixels(&tilesets.get_metatile_image(0).unwrap(), 16, 16);
    for y in 0..8usize {
        for x in 0..8usize {
            assert_eq!(image[y][x], color(10, first_pattern(x, y)));
            assert_eq!(image[y][8 + x], color(10, first_pattern(8 + x, y)));
            assert_eq!(image[8 + y][x], color(20, first_pattern(x, y)));
            assert_eq!(image[8 + y][8 + x], color(130, second_pattern(x, y)));
        }
    }
}

#[test]
fn bottom_layer_draws_the_value_zero() {
    let tilesets = small(vec![metatile([tile(1, 1); 4], no_top())], Vec::new());
    let image = tilesets.get_metatile_image(0).unwrap();
    // first_pattern(9, 0) is 0
    assert_eq!(first_pattern(9, 0), 0);
    assert_eq!(image.pixel(1, 0), Some((20, 1, 255)));
    assert_eq!(image.pixel(9, 8), Some((20, 1, 255)));
}

#[test]
fn top_layer_covers_the_bottom_layer_except_where_its_value_is_zero() {
    let bottom = [tile(0, 0); 4];
    let top = [tile(1, 1), flipped(1, 1, true, false), tile(640, 0), flipped(640, 1, true, true)];
    let tilesets = small(vec![metatile(bottom, top)], Vec::new());
    let image = pixels(&tilesets.get_metatile_image(0).unwrap(), 16, 16);
    let mut kept: usize = 0;
    for y in 0..8usize {
        for x in 0..8usize {
            let below = color(10, first_pattern(x, y));
            let over = first_pattern(8 + x, y);
            let expected = if over == 0 { below } else { color(20, over) };
            kept += (over == 0) as usize;
            assert_eq!(image[y][x], expected);
            let over = first_pattern(8 + 7 - x, y);
            let expected = if over == 0 { below } else { color(20, over) };
            assert_eq!(image[y][8 + x], expected);
            let over = second_pattern(x, y);
            let expected = if over == 0 { below } else { color(110, over) };
            assert_eq!(image[8 + y][x], expected);
            let over = second_pattern(7 - x, 7 - y);
            let expected = if over == 0 { below } else { color(120, over) };
            assert_eq!(image[8 + y][8 + x], expected);
        }
    }
    assert!(kept > 0 && kept < 64);
}

#[test]
fn clear_top_layer_shows_the_bottom_layer() {
    let clear = LayoutTileset {
        primary: Tileset {
            metatiles: vec![
                metatile([tile(1, 0), tile(1, 1), tile(640, 0), tile(0, 1)], [tile(0, 1); 4]),
                metatile([tile(1, 0), tile(1, 1), tile(640, 0), tile(0, 1)], no_top()),
                metatile(
                    [tile(1, 0), tile(1, 1), tile(640, 0), tile(0, 1)],
                    [
                        flipped(0, 0, true, false),
                        flipped(0, 1, false, true),
                        flipped(0, 1, true, true),
                        tile(MISSING, 0),
                    ],
                ),
            ],
            tile_image: atlas(2, 1, clear_then_pattern),
            palettes: vec![palette(10), palette(20)],
        },
        secondary: Tileset {
            metatiles: Vec::new(),
            tile_image: atlas(1, 1, second_pattern),
            palettes: vec![palette(110)],
        },
    };
    let with_clear_top = pixels(&clear.get_metatile_image(0).unwrap(), 16, 16);
    let bottom_only = pixels(&clear.get_metatile_image(1).unwrap(), 16, 16);
    let with_flipped_clear_top = pixels(&clear.get_metatile_image(2).unwrap(), 16, 16);
    assert_eq!(with_clear_top, bottom_only);
    assert_eq!(with_flipped_clear_top, bottom_only);
    assert_eq!(bottom_only[0][0], color(10, first_pattern(8, 0)));
    assert_eq!(bottom_only[15][15], color(20, 0));
}

#[test]
fn tile_that_cannot_be_found_leaves_its_quarter_as_it_was() {
    let bottom = [tile(0, 0), tile(2, 0), tile(0, 2), tile(641, 0)];
    let top = [tile(MISSING, 0), tile(1, 5), tile(1, 1), tile(1023, 0)];
    let tilesets = small(vec![metatile(bottom, top)], Vec::new());
    let image = pixels(&tilesets.get_metatile_image(0).unwrap(), 16, 16);
    for y in 0..8usize {
        for x in 0..8usize {
            assert_eq!(image[y][x], color(10, first_pattern(x, y)));
            assert_eq!(image[y][8 + x], BLACK);
            let over = first_pattern(8 + x, y);
            let expected = if over == 0 { BLACK } else { color(20, over) };
            assert_eq!(image[8 + y][x], expected);
            assert_eq!(image[8 + y][8 + x], BLACK);
        }
    }
}

#[test]
fn metatile_without_any_tile_is_black() {
    let tilesets = small(vec![metatile(no_top(), no_top())], Vec::new());
    let image = pixels(&tilesets.get_metatile_image(0).unwrap(), 16, 16);
    assert_eq!(image, vec![vec![BLACK; 16]; 16]);
}

#[test]
fn layer_type_does_not_change_the_image() {
    let mut metatiles = Vec::new();
    for layer_type in [LayerType::MiddleTop, LayerType::BottomMiddle, LayerType::BottomTop] {
        let mut next = metatile([tile(0, 0), tile(1, 0), tile(640, 0), tile(0, 1)], [tile(1, 1); 4]);
        next.attributes = MetatileAttributes { layer_type };
        metatiles.push(next);
    }
    let tilesets = small(metatiles, Vec::new());
    let first = pixels(&tilesets.get_metatile_image(0).unwrap(), 16, 16);
    assert_eq!(pixels(&tilesets.get_metatile_image(1).unwrap(), 16, 16), first);
    assert_eq!(pixels(&tilesets.get_metatile_image(2).unwrap(), 16, 16), first);
}

fn cells(values: &[u16]) -> Vec<u8> {
    let mut bytes = Vec::new();
    for value in values {
        bytes.extend_from_slice(&value.to_le_bytes());
    }
    bytes
}

fn three_metatiles() -> LayoutTileset {
    small(
        vec![
            metatile([tile(0, 0), tile(1, 0), tile(0, 1), tile(1, 1)], no_top()),
            metatile([tile(640, 0); 4], [tile(1, 0); 4]),
        ],
        vec![metatile([tile(640, 2), tile(0, 0), tile(640, 1), tile(1, 1)], no_top())],
    )
}

#[test]
fn map_is_drawn_cell_by_cell() {
    let tilesets = three_metatiles();
    // The high bits of a cell are not part of the metatile id.
    let layout = Layout::load(3, 2, &cells(&[0, 1, 2, 0x0c02, 0xf000, 1]), &[]).unwrap();
    let image = pixels(&render_map(&layout, &tilesets).unwrap(), 48, 32);
    let ids = [[0u16, 1, 2], [2, 0, 1]];
    for row in 0..2usize {
        for col in 0..3usize {
            let metatile = pixels(&tilesets.get_metatile_image(ids[row][col]).unwrap(), 16, 16);
            for y in 0..16usize {
                for x in 0..16usize {
                    assert_eq!(image[16 * row + y][16 * col + x], metatile[y][x]);
                }
            }
        }
    }
    assert_eq!(image[0][0], color(10, first_pattern(0, 0)));
    assert_eq!(image[31][47], color(10, first_pattern(15, 7)));
    assert_eq!(image[16][0], color(130, second_pattern(0, 0)));
}

#[test]
fn cell_with_an_unknown_metatile_is_left_black() {
    let tilesets = three_metatiles();
    let layout = Layout::load(2, 2, &cells(&[0, 3, 1023, 2]), &[]).unwrap();
    let image = pixels(&render_map(&layout, &tilesets).unwrap(), 32, 32);
    let first = pixels(&tilesets.get_metatile_image(0).unwrap(), 16, 16);
    let last = pixels(&tilesets.get_metatile_image(2).unwrap(), 16, 16);
    for y in 0..16usize {
        for x in 0..16usize {
            assert_eq!(image[y][x], first[y][x]);
            assert_eq!(image[y][16 + x], BLACK);
            assert_eq!(image[16 + y][x], BLACK);
            assert_eq!(image[16 + y][16 + x], last[y][x]);
        }
    }
}

#[test]
fn map_with_spare_cells_is_drawn_from_the_first_ones() {
    let tilesets = three_metatiles();
    let layout = Layout::load(1, 2, &cells(&[2, 0, 1, 1, 1]), &[]).unwrap();
    let image = pixels(&render_map(&layout, &tilesets).unwrap(), 16, 32);
    let top = pixels(&tilesets.get_metatile_image(2).unwrap(), 16, 16);
    let bottom = pixels(&tilesets.get_metatile_image(0).unwrap(), 16, 16);
    assert_eq!(image[..16], top[..]);
    assert_eq!(image[16..], bottom[..]);
}

#[test]
fn map_that_lacks_cells_is_not_drawn() {
    let tilesets = three_metatiles();
    let layout = Layout::load(2, 2, &cells(&[0, 1, 2]), &[]).unwrap();
    assert!(render_map(&layout, &tilesets).is_none());
    let layout = Layout::load(1, 1, &[], &[]).unwrap();
    assert!(render_map(&layout, &tilesets).is_none());
}

#[test]
fn map_too_large_to_address_is_not_drawn() {
    let tilesets = three_metatiles();
    let layout = Layout::load(1 << 28, 1, &cells(&[0]), &[]).unwrap();
    assert!(render_map(&layout, &tilesets).is_none());
    let layout = Layout::load(0, 1 << 28, &[], &[]).unwrap();
    assert!(render_map(&layout, &tilesets).is_none());
    let layout = Layout::load(u32::MAX, u32::MAX, &[], &[]).unwrap();
    assert!(render_map(&layout, &tilesets).is_none());
}

#[test]
fn map_without_cells_is_an_image_without_pixels() {
    let tilesets = three_metatiles();
    for (width, height) in [(0u32, 0u32), (0, 3), (3, 0)] {
        let layout = Layout::load(width, height, &[], &[]).unwrap();
        let image = render_map(&layout, &tilesets).unwrap();
        assert_eq!(image.pixel(0, 0), None);
    }
}
