use frlg_render::error::FormatError;
use frlg_render::map::{Layout, MapData, MapMetatileData};

fn cells(values: &[u16]) -> Vec<u8> {
    let mut bytes = Vec::new();
    for value in values {
        bytes.extend_from_slice(&value.to_le_bytes());
    }
    bytes
}

#[test]
fn two_by_two_grid_is_read_row_by_row() {
    let map = cells(&[0x0000, 0x0001, 0x0002, 0x0003]);
    let border = cells(&[0, 0]);
    let layout = Layout::load(2, 2, &map, &border).unwrap();
    assert_eq!(layout.get_metatile(1, 1).unwrap().metatile_id, 3);
    assert_eq!(layout.get_metatile(0, 0).unwrap().metatile_id, 0);
    assert_eq!(layout.get_metatile(0, 1).unwrap().metatile_id, 1);
    assert_eq!(layout.get_metatile(1, 0).unwrap().metatile_id, 2);
    assert_eq!(layout.get_metatile(2, 0), None);
    assert_eq!(layout.get_metatile(0, 2), None);
}

#[test]
fn two_by_two_grid_over_a_sixteen_byte_file() {
    let map = cells(&[0x0000, 0x0001, 0x0002, 0x0003, 0, 0, 0, 0]);
    assert_eq!(map.len(), 16);
    let border = cells(&[0, 0]);
    let layout = Layout::load(2, 2, &map, &border).unwrap();
    assert_eq!(layout.get_metatile(1, 1).unwrap().metatile_id, 3);
    assert_eq!(layout.get_metatile(2, 0), None);
}

#[test]
fn cells_carry_collision_and_elevation() {
    let map = cells(&[0x3c05]);
    let layout = Layout::load(1, 1, &map, &[]).unwrap();
    assert_eq!(
        layout.get_metatile(0, 0),
        Some(MapMetatileData { metatile_id: 5, collision_data: 3, elevation: 3 })
    );
}

#[test]
fn map_cells_are_little_endian() {
    let data = MapData::from_files(&[0x34, 0x12, 0xff, 0x03], &[0x00, 0x04]).unwrap();
    assert_eq!(data.metatiles.len(), 2);
    assert_eq!(data.metatiles[0], MapMetatileData::from(0x1234));
    assert_eq!(data.metatiles[0].metatile_id, 0x234);
    assert_eq!(data.metatiles[0].elevation, 1);
    assert_eq!(data.metatiles[1].metatile_id, 0x3ff);
    assert_eq!(data.borders.len(), 1);
    assert_eq!(data.borders[0].collision_data, 1);
}

#[test]
fn border_cells_are_decoded_like_map_cells() {
    let data = MapData::from_files(&[], &cells(&[7, 8, 9, 10])).unwrap();
    assert!(data.metatiles.is_empty());
    let ids: Vec<u16> = data.borders.iter().map(|cell| cell.metatile_id).collect();
    assert_eq!(ids, vec![7, 8, 9, 10]);
}

#[test]
fn odd_map_file_is_rejected() {
    assert_eq!(MapData::from_files(&[0, 0, 0], &[0, 0]).err(), Some(FormatError::OddMapLength));
    assert_eq!(Layout::load(1, 1, &[0], &[]).err(), Some(FormatError::OddMapLength));
}

#[test]
fn odd_border_file_is_rejected() {
    assert_eq!(MapData::from_files(&[0, 0], &[0]).err(), Some(FormatError::OddMapLength));
    assert_eq!(Layout::load(1, 1, &[0, 0], &[1, 2, 3]).err(), Some(FormatError::OddMapLength));
}

#[test]
fn load_keeps_the_size_it_is_given() {
    let layout = Layout::load(3, 5, &cells(&[1, 2]), &[]).unwrap();
    assert_eq!(layout.width, 3);
    assert_eq!(layout.height, 5);
    assert_eq!(layout.map_data.metatiles.len(), 2);
}

#[test]
fn rows_without_cells_are_absent() {
    let layout = Layout::load(2, 3, &cells(&[10, 11, 12]), &[]).unwrap();
    assert_eq!(layout.get_metatile(0, 1).unwrap().metatile_id, 11);
    assert_eq!(layout.get_metatile(1, 0).unwrap().metatile_id, 12);
    assert_eq!(layout.get_metatile(1, 1), None);
    assert_eq!(layout.get_metatile(2, 0), None);
    assert_eq!(layout.get_metatile(2, 1), None);
}

#[test]
fn column_past_the_width_is_absent_even_when_a_cell_follows() {
    let layout = Layout::load(2, 2, &cells(&[0, 1, 2, 3]), &[]).unwrap();
    assert_eq!(layout.get_metatile(0, 2), None);
    assert_eq!(layout.get_metatile(0, 3), None);
}

#[test]
fn empty_grid_has_no_cells() {
    let layout = Layout::load(0, 0, &[], &[]).unwrap();
    assert_eq!(layout.get_metatile(0, 0), None);
    let layout = Layout::load(0, 4, &cells(&[1, 2]), &[]).unwrap();
    assert_eq!(layout.get_metatile(0, 0), None);
}

#[test]
fn very_large_sizes_do_not_overflow() {
    let layout = Layout::load(u32::MAX, u32::MAX, &cells(&[1, 2, 3]), &[]).unwrap();
    assert_eq!(layout.get_metatile(0, 2).unwrap().metatile_id, 3);
    assert_eq!(layout.get_metatile(0, 3), None);
    assert_eq!(layout.get_metatile(1, 0), None);
    assert_eq!(layout.get_metatile(u32::MAX - 1, u32::MAX - 1), None);
    assert_eq!(layout.get_metatile(u32::MAX, 0), None);
    // 65537 * 65535 + 65534 is 65533 modulo 2^32.
    let layout = Layout::load(65535, 65538, &vec![0u8; 2 * 65535], &[]).unwrap();
    assert!(layout.get_metatile(0, 65534).is_some());
    assert_eq!(layout.get_metatile(65537, 65534), None);
}

#[test]
fn a_cell_can_be_changed_in_place() {
    let mut layout = Layout::load(2, 2, &cells(&[0, 1, 2, 3]), &cells(&[9])).unwrap();
    {
        let cell = layout.get_metatile_mut(1, 0).unwrap();
        assert_eq!(cell.metatile_id, 2);
        cell.metatile_id = 77;
        cell.elevation = 4;
    }
    assert_eq!(
        layout.get_metatile(1, 0),
        Some(MapMetatileData { metatile_id: 77, collision_data: 0, elevation: 4 })
    );
    assert_eq!(layout.get_metatile(0, 0).unwrap().metatile_id, 0);
    assert_eq!(layout.get_metatile(0, 1).unwrap().metatile_id, 1);
    assert_eq!(layout.get_metatile(1, 1).unwrap().metatile_id, 3);
    assert_eq!(layout.map_data.borders[0].metatile_id, 9);
    assert_eq!((layout.width, layout.height), (2, 2));
}

#[test]
fn no_cell_to_change_outside_the_grid() {
    let mut layout = Layout::load(2, 2, &cells(&[0, 1, 2]), &[]).unwrap();
    assert!(layout.get_metatile_mut(2, 0).is_none());
    assert!(layout.get_metatile_mut(0, 2).is_none());
    assert!(layout.get_metatile_mut(1, 1).is_none());
    assert!(layout.get_metatile_mut(1, 0).is_some());
}
