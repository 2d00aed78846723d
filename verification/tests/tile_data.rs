use frlg_render::map::MapMetatileData;
use frlg_render::tileset::{LayerType, MetatileAttributes, TileData};

#[test]
fn tile_data_takes_each_field_from_its_bits() {
    // 0xabcd = 1010 1 0 1111001101
    let tile = TileData::from(0xabcd);
    assert_eq!(tile.tile_id, 0x3cd);
    assert!(!tile.flip_horizontal);
    assert!(tile.flip_vertical);
    assert_eq!(tile.palette_number, 10);
}

#[test]
fn tile_data_reads_the_flips_apart() {
    let horizontal = TileData::from(0x0400);
    assert_eq!(
        horizontal,
        TileData { tile_id: 0, flip_horizontal: true, flip_vertical: false, palette_number: 0 }
    );
    let vertical = TileData::from(0x0800);
    assert_eq!(
        vertical,
        TileData { tile_id: 0, flip_horizontal: false, flip_vertical: true, palette_number: 0 }
    );
}

#[test]
fn tile_data_extremes() {
    assert_eq!(
        TileData::from(0x0000),
        TileData { tile_id: 0, flip_horizontal: false, flip_vertical: false, palette_number: 0 }
    );
    assert_eq!(
        TileData::from(0xffff),
        TileData { tile_id: 1023, flip_horizontal: true, flip_vertical: true, palette_number: 15 }
    );
    assert_eq!(TileData::from(0x0280).tile_id, 640);
}

#[test]
fn tile_data_round_trips_every_packed_value() {
    for value in 0..=u16::MAX {
        assert_eq!(u16::from(TileData::from(value)), value);
    }
}

#[test]
fn tile_data_round_trips_every_reference_that_fits() {
    for tile_id in 0..1024u16 {
        for palette_number in 0..16u8 {
            for flips in 0..4u8 {
                let tile = TileData {
                    tile_id,
                    flip_horizontal: flips & 1 != 0,
                    flip_vertical: flips & 2 != 0,
                    palette_number,
                };
                assert_eq!(TileData::from(u16::from(tile)), tile);
            }
        }
    }
}

#[test]
fn tile_data_packs_to_the_documented_layout() {
    let tile =
        TileData { tile_id: 0x155, flip_horizontal: true, flip_vertical: false, palette_number: 7 };
    assert_eq!(u16::from(tile), 0x7555);
    let tile =
        TileData { tile_id: 1, flip_horizontal: false, flip_vertical: true, palette_number: 0 };
    assert_eq!(u16::from(tile), 0x0801);
}

#[test]
fn tile_data_packing_drops_bits_that_do_not_fit() {
    let tile = TileData {
        tile_id: 0xfc01,
        flip_horizontal: false,
        flip_vertical: false,
        palette_number: 0xf3,
    };
    assert_eq!(u16::from(tile), 0x3001);
}

#[test]
fn attributes_select_the_layer_type_from_bits_29_and_30() {
    assert_eq!(MetatileAttributes::from(0).layer_type, LayerType::MiddleTop);
    assert_eq!(MetatileAttributes::from(1 << 29).layer_type, LayerType::BottomMiddle);
    assert_eq!(MetatileAttributes::from(2 << 29).layer_type, LayerType::BottomTop);
}

#[test]
fn attributes_fall_back_to_middle_top() {
    assert_eq!(MetatileAttributes::from(3 << 29).layer_type, LayerType::MiddleTop);
}

#[test]
fn attributes_ignore_the_other_bits() {
    assert_eq!(MetatileAttributes::from(0x9fff_ffff).layer_type, LayerType::MiddleTop);
    assert_eq!(MetatileAttributes::from(0xbfff_ffff).layer_type, LayerType::BottomMiddle);
    assert_eq!(MetatileAttributes::from(0x4000_0001).layer_type, LayerType::BottomTop);
    assert_eq!(MetatileAttributes::from(0xffff_ffff).layer_type, LayerType::MiddleTop);
}

#[test]
fn map_cell_takes_each_field_from_its_bits() {
    // 0xb6a5 = 1011 01 1010100101
    let cell = MapMetatileData::from(0xb6a5);
    assert_eq!(cell.metatile_id, 0x2a5);
    assert_eq!(cell.collision_data, 1);
    assert_eq!(cell.elevation, 11);
}

#[test]
fn map_cell_extremes() {
    assert_eq!(
        MapMetatileData::from(0),
        MapMetatileData { metatile_id: 0, collision_data: 0, elevation: 0 }
    );
    assert_eq!(
        MapMetatileData::from(0xffff),
        MapMetatileData { metatile_id: 1023, collision_data: 3, elevation: 15 }
    );
    assert_eq!(
        MapMetatileData::from(0x0c00),
        MapMetatileData { metatile_id: 0, collision_data: 3, elevation: 0 }
    );
}
