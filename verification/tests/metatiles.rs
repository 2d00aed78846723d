use frlg_render::error::FormatError;
use frlg_render::tileset::{parse_metatile_files, LayerType, TileData};

fn record(first: u16) -> Vec<u8> {
    let mut bytes = Vec::new();
    for slot in 0..8u16 {
        bytes.extend_from_slice(&(first + slot).to_le_bytes());
    }
    bytes
}

#[test]
fn metatile_files_decode_in_file_order() {
    let mut metatiles = record(0x0100);
    metatiles.extend(record(0xf400));
    let mut attributes = Vec::new();
    attributes.extend_from_slice(&(1u32 << 29).to_le_bytes());
    attributes.extend_from_slice(&(2u32 << 29).to_le_bytes());
    let table = parse_metatile_files(&metatiles, &attributes).unwrap();
    assert_eq!(table.len(), 2);
    for slot in 0..8usize {
        assert_eq!(table[0].tiles[slot], TileData::from(0x0100 + slot as u16));
        assert_eq!(table[1].tiles[slot], TileData::from(0xf400 + slot as u16));
    }
    assert_eq!(table[0].tiles[3].tile_id, 0x103);
    assert_eq!(table[1].tiles[0].palette_number, 15);
    assert!(table[1].tiles[0].flip_horizontal);
    assert_eq!(table[0].attributes.layer_type, LayerType::BottomMiddle);
    assert_eq!(table[1].attributes.layer_type, LayerType::BottomTop);
}

#[test]
fn metatile_files_are_little_endian() {
    let mut metatiles = vec![0u8; 16];
    metatiles[0] = 0x01;
    metatiles[1] = 0x1c;
    metatiles[14] = 0x34;
    metatiles[15] = 0x02;
    let attributes = vec![0x00, 0x00, 0x00, 0x40];
    let table = parse_metatile_files(&metatiles, &attributes).unwrap();
    assert_eq!(
        table[0].tiles[0],
        TileData { tile_id: 1, flip_horizontal: true, flip_vertical: true, palette_number: 1 }
    );
    assert_eq!(table[0].tiles[7].tile_id, 0x234);
    assert_eq!(table[0].attributes.layer_type, LayerType::BottomTop);
}

#[test]
fn attribute_word_reads_its_high_byte_last() {
    let metatiles = vec![0u8; 16];
    let table = parse_metatile_files(&metatiles, &[0x20, 0x00, 0x00, 0x00]).unwrap();
    assert_eq!(table[0].attributes.layer_type, LayerType::MiddleTop);
    let table = parse_metatile_files(&metatiles, &[0x00, 0x00, 0x00, 0x20]).unwrap();
    assert_eq!(table[0].attributes.layer_type, LayerType::BottomMiddle);
}

#[test]
fn empty_metatile_files_make_an_empty_table() {
    let table = parse_metatile_files(&[], &[]).unwrap();
    assert!(table.is_empty());
}

#[test]
fn misaligned_metatile_file_is_rejected() {
    let result = parse_metatile_files(&[0u8; 17], &[0u8; 4]);
    assert_eq!(result.err(), Some(FormatError::MisalignedMetatiles));
    let result = parse_metatile_files(&[0u8; 15], &[0u8; 4]);
    assert_eq!(result.err(), Some(FormatError::MisalignedMetatiles));
}

#[test]
fn misaligned_attribute_file_is_rejected() {
    let result = parse_metatile_files(&[0u8; 16], &[0u8; 5]);
    assert_eq!(result.err(), Some(FormatError::MisalignedAttributes));
    let result = parse_metatile_files(&[0u8; 16], &[0u8; 3]);
    assert_eq!(result.err(), Some(FormatError::MisalignedAttributes));
}

#[test]
fn misaligned_metatile_file_is_reported_first() {
    let result = parse_metatile_files(&[0u8; 1], &[0u8; 1]);
    assert_eq!(result.err(), Some(FormatError::MisalignedMetatiles));
}

#[test]
fn too_few_attributes_are_rejected() {
    let result = parse_metatile_files(&[0u8; 32], &[0u8; 4]);
    assert_eq!(result.err(), Some(FormatError::MetatileCountMismatch));
    let result = parse_metatile_files(&[0u8; 16], &[]);
    assert_eq!(result.err(), Some(FormatError::MetatileCountMismatch));
}

#[test]
fn too_many_attributes_are_rejected() {
    let result = parse_metatile_files(&[0u8; 16], &[0u8; 8]);
    assert_eq!(result.err(), Some(FormatError::MetatileCountMismatch));
    let result = parse_metatile_files(&[], &[0u8; 4]);
    assert_eq!(result.err(), Some(FormatError::MetatileCountMismatch));
}
