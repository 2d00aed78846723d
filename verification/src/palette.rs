//! Palettes of sixteen colors.

use crate::error::FormatError;
use crate::order::{
    count_before, lemma_numbers_of_reordering, lemma_place_ignores_order, lemma_slot_bound,
    lemma_slot_distinct, lemma_slot_onto, lemma_slot_order, numbers, slot,
};
use crate::raster::Rgb;
use crate::text::{
    field_end, find_field_end, find_field_start, has_line, line, line_start, number, parse_number,
    read_line, skip_spaces,
};
use vstd::prelude::*;
use vstd::slice::slice_subrange;

verus! {

/// Sixteen colors, selected by a 4-bit pixel value. On an overlay layer the
/// pixel value 0 stands for "transparent" and its color is not drawn.
#[derive(Clone, Copy, Debug)]
pub struct Palette {
    /// The colors, in the order of the pixel values that select them.
    pub colors: [Rgb; 16],
}

impl View for Palette {
    type V = Seq<Rgb>;

    open spec fn view(&self) -> Seq<Rgb> {
        self.colors@
    }
}

impl Palette {
    /// The color that the pixel value `entry` selects.
    pub fn get(&self, entry: usize) -> (color: &(u8, u8, u8))
        requires
            entry < 16,
        ensures
            *color == self@[entry as int],
    {
        &self.colors[entry]
    }
}

/// The first line of a palette file: `JASC-PAL`, in ASCII.
pub open spec fn tag_line() -> Seq<u8> {
    seq![0x4au8, 0x41u8, 0x53u8, 0x43u8, 0x2du8, 0x50u8, 0x41u8, 0x4cu8]
}

/// The second line of a palette file, the version of the format: `0100`,
/// in ASCII.
pub open spec fn version_line() -> Seq<u8> {
    seq![0x30u8, 0x31u8, 0x30u8, 0x30u8]
}

/// The third line of a palette file, the number of colors: `16`, in
/// ASCII.
pub open spec fn count_line() -> Seq<u8> {
    seq![0x31u8, 0x36u8]
}

/// Whether `text` starts with the three header lines of a palette file.
pub open spec fn header_ok(text: Seq<u8>) -> bool {
    &&& has_line(text, 0) && line(text, 0) == tag_line()
    &&& has_line(text, 1) && line(text, 1) == version_line()
    &&& has_line(text, 2) && line(text, 2) == count_line()
}

/// The color that a line of a palette file states: exactly three fields,
/// separated and possibly surrounded by whitespace, each a number from 0 to
/// 255, for red, green and blue. `None` if the line is not of that form.
pub open spec fn color_of(text: Seq<u8>) -> Option<Rgb> {
    let red_start = skip_spaces(text, 0);
    let red_end = field_end(text, red_start);
    let green_start = skip_spaces(text, red_end);
    let green_end = field_end(text, green_start);
    let blue_start = skip_spaces(text, green_end);
    let blue_end = field_end(text, blue_start);
    let rest = skip_spaces(text, blue_end);
    if blue_start < text.len() && rest == text.len() {
        match (
            number(text.subrange(red_start, red_end), 255),
            number(text.subrange(green_start, green_end), 255),
            number(text.subrange(blue_start, blue_end), 255),
        ) {
            (Some(red), Some(green), Some(blue)) => Some((red as u8, green as u8, blue as u8)),
            _ => None,
        }
    } else {
        None
    }
}

/// Color `k` of a palette file: what its line `3 + k` states, if the file
/// has that line and it states a color.
pub open spec fn color_line(text: Seq<u8>, k: int) -> Option<Rgb> {
    if has_line(text, (3 + k) as nat) {
        color_of(line(text, (3 + k) as nat))
    } else {
        None
    }
}

/// The palette that a palette file states, or why it states none. The file
/// holds three header lines and then sixteen color lines; what follows them
/// is not looked at.
pub open spec fn palette_of(text: Seq<u8>) -> Result<Seq<Rgb>, FormatError> {
    if !header_ok(text) {
        Err(FormatError::PaletteHeader)
    } else if !(forall|k: int| 0 <= k < 16 ==> (#[trigger] color_line(text, k)) is Some) {
        Err(FormatError::PaletteColor)
    } else {
        Ok(Seq::new(16, |k: int| color_line(text, k).unwrap()))
    }
}

/// Tests whether two byte strings are the same.
fn same_bytes(left: &[u8], right: &[u8]) -> (same: bool)
    ensures
        same == (left@ == right@),
{
    if left.len() != right.len() {
        return false;
    }
    let mut index: usize = 0;
    while index < left.len()
        invariant
            left@.len() == right@.len(),
            index <= left@.len(),
            forall|i: int| 0 <= i < index ==> left@[i] == right@[i],
        decreases left@.len() - index,
    {
        if left[index] != right[index] {
            return false;
        }
        index += 1;
    }
    assert(left@ =~= right@);
    true
}

/// Reads the color that a line of a palette file states.
pub fn parse_color(text: &[u8]) -> (color: Option<(u8, u8, u8)>)
    ensures
        color == color_of(text@),
{
    let red_start: usize = find_field_start(text, 0);
    let red_end: usize = find_field_end(text, red_start);
    let green_start: usize = find_field_start(text, red_end);
    let green_end: usize = find_field_end(text, green_start);
    let blue_start: usize = find_field_start(text, green_end);
    let blue_end: usize = find_field_end(text, blue_start);
    let rest: usize = find_field_start(text, blue_end);
    if blue_start >= text.len() || rest != text.len() {
        return None;
    }
    let red = parse_number(slice_subrange(text, red_start, red_end), 255);
    let green = parse_number(slice_subrange(text, green_start, green_end), 255);
    let blue = parse_number(slice_subrange(text, blue_start, blue_end), 255);
    match (red, green, blue) {
        (Some(red), Some(green), Some(blue)) => Some((red as u8, green as u8, blue as u8)),
        _ => None,
    }
}

/// Reads a palette file: the lines `JASC-PAL`, `0100` and `16`, and then
/// sixteen lines of three numbers each. A file with another header or with
/// a color line that is missing or malformed is rejected.
pub fn parse_palette(text: &[u8]) -> (result: Result<Palette, FormatError>)
    ensures
        match result {
            Ok(palette) => palette_of(text@) == Ok::<Seq<Rgb>, FormatError>(palette@),
            Err(error) => palette_of(text@) == Err::<Seq<Rgb>, FormatError>(error),
        },
{
    let length: usize = text.len();
    let tag: [u8; 8] = [0x4a, 0x41, 0x53, 0x43, 0x2d, 0x50, 0x41, 0x4c];
    let version: [u8; 4] = [0x30, 0x31, 0x30, 0x30];
    let count: [u8; 2] = [0x31, 0x36];
    assert(tag@ =~= tag_line());
    assert(version@ =~= version_line());
    assert(count@ =~= count_line());
    assert(line_start(text@, 0) == 0);
    if 0 >= length {
        return Err(FormatError::PaletteHeader);
    }
    let (first, position) = read_line(text, 0);
    assert(line_start(text@, 1) == crate::text::line_end(text@, line_start(text@, 0)) + 1);
    if !same_bytes(first, &tag) || position >= length {
        return Err(FormatError::PaletteHeader);
    }
    let (second, position) = read_line(text, position);
    assert(line_start(text@, 2) == crate::text::line_end(text@, line_start(text@, 1)) + 1);
    if !same_bytes(second, &version) || position >= length {
        return Err(FormatError::PaletteHeader);
    }
    let (third, position) = read_line(text, position);
    assert(line_start(text@, 3) == crate::text::line_end(text@, line_start(text@, 2)) + 1);
    if !same_bytes(third, &count) {
        return Err(FormatError::PaletteHeader);
    }
    let mut position: usize = position;
    let mut palette_data: [(u8, u8, u8); 16] = [(0, 0, 0); 16];
    for palette_id in 0usize..16
        invariant
            length == text@.len(),
            header_ok(text@),
            position <= length,
            position == (if line_start(text@, (3 + palette_id) as nat) < length {
                line_start(text@, (3 + palette_id) as nat)
            } else {
                length as int
            }),
            forall|k: int|
                0 <= k < palette_id ==> #[trigger] color_line(text@, k) == Some(palette_data@[k]),
    {
        if position >= length {
            assert(color_line(text@, palette_id as int) is None);
            return Err(FormatError::PaletteColor);
        }
        let (entry, next) = read_line(text, position);
        assert(line_start(text@, (3 + palette_id + 1) as nat) == crate::text::line_end(
            text@,
            line_start(text@, (3 + palette_id) as nat),
        ) + 1);
        let color = match parse_color(entry) {
            Some(color) => color,
            None => {
                assert(color_line(text@, palette_id as int) is None);
                return Err(FormatError::PaletteColor);
            },
        };
        palette_data[palette_id] = color;
        position = next;
    }
    let palette = Palette { colors: palette_data };
    assert(palette@ =~= Seq::new(16, |k: int| color_line(text@, k).unwrap()));
    Ok(palette)
}

/// One entry of a directory of palettes: the name of a file and what the
/// file holds.
#[derive(Debug)]
pub struct PaletteFile {
    /// The file name, without the directories that lead to it.
    pub name: Vec<u8>,
    /// The contents of the file.
    pub contents: Vec<u8>,
}

/// The end of the name of a palette file: `.pal`, in ASCII.
pub open spec fn pal_suffix() -> Seq<u8> {
    seq![0x2eu8, 0x70u8, 0x61u8, 0x6cu8]
}

/// Whether `name` is the name of a palette file: a base name that is not
/// empty, and the extension `pal`.
pub open spec fn is_pal_name(name: Seq<u8>) -> bool {
    name.len() > 4 && name.subrange(name.len() - 4, name.len() as int) == pal_suffix()
}

/// The number of a palette file: the one that its base name writes, if
/// `name` is the name of a palette file and its base name writes a number
/// of 32 bits.
pub open spec fn pal_number(name: Seq<u8>) -> Option<u32> {
    if is_pal_name(name) {
        match number(name.subrange(0, name.len() - 4), u32::MAX as int) {
            Some(n) => Some(n as u32),
            None => None,
        }
    } else {
        None
    }
}

/// Tests whether `name` is the name of a palette file.
pub fn is_pal_file(name: &[u8]) -> (pal: bool)
    ensures
        pal == is_pal_name(name@),
{
    let length: usize = name.len();
    if length <= 4 {
        return false;
    }
    let suffix: [u8; 4] = [0x2e, 0x70, 0x61, 0x6c];
    assert(suffix@ =~= pal_suffix());
    same_bytes(slice_subrange(name, length - 4, length), &suffix)
}

/// Reads the number of a palette file from its name.
pub fn palette_number(name: &[u8]) -> (found: Option<u32>)
    ensures
        found == pal_number(name@),
{
    if !is_pal_file(name) {
        return None;
    }
    parse_number(slice_subrange(name, 0, name.len() - 4), u32::MAX)
}

/// What a palette file loads as: its palette and its number. The contents
/// are judged before the name.
pub open spec fn entry_of(file: PaletteFile) -> Result<(Seq<Rgb>, u32), FormatError> {
    match palette_of(file.contents@) {
        Err(error) => Err(error),
        Ok(colors) => match pal_number(file.name@) {
            None => Err(FormatError::PaletteName),
            Some(n) => Ok((colors, n)),
        },
    }
}

/// The error of the first palette file among `files` that does not load,
/// if there is one. Files that are no palette files are passed over.
pub open spec fn first_error(files: Seq<PaletteFile>) -> Option<FormatError>
    decreases files.len(),
{
    if files.len() == 0 {
        None
    } else {
        match first_error(files.drop_last()) {
            Some(error) => Some(error),
            None => if is_pal_name(files.last().name@) {
                match entry_of(files.last()) {
                    Err(error) => Some(error),
                    Ok(_) => None,
                }
            } else {
                None
            },
        }
    }
}

/// The palettes and numbers of the palette files among `files`, in the
/// order of `files`.
pub open spec fn loaded(files: Seq<PaletteFile>) -> Seq<(Seq<Rgb>, u32)>
    decreases files.len(),
{
    if files.len() == 0 {
        Seq::empty()
    } else if is_pal_name(files.last().name@) {
        loaded(files.drop_last()).push(entry_of(files.last()).unwrap())
    } else {
        loaded(files.drop_last())
    }
}

/// Counts the entries that come before entry `i`.
fn place_of(entries: &Vec<(Palette, u32)>, i: usize) -> (place: usize)
    requires
        i < entries.len(),
    ensures
        place == slot(numbers(entries@), i as int),
        place < entries.len(),
{
    let ghost keys = numbers(entries@);
    let number: u32 = entries[i].1;
    let mut place: usize = 0;
    let mut j: usize = 0;
    while j < entries.len()
        invariant
            i < entries.len(),
            j <= entries.len(),
            keys == numbers(entries@),
            number == keys[i as int],
            place == count_before(keys, i as int, j as int),
            place <= j,
        decreases entries.len() - j,
    {
        let other: u32 = entries[j].1;
        assert(other == keys[j as int]);
        if other < number || (other == number && j < i) {
            place += 1;
        }
        j += 1;
    }
    proof {
        lemma_slot_bound(keys, i as int);
    }
    place
}

/// Orders palettes by their numbers, and palettes of one number by their
/// position.
fn order_by_number(entries: &Vec<(Palette, u32)>) -> (ordered: Vec<Palette>)
    ensures
        ordered.len() == entries.len(),
        forall|i: int|
            0 <= i < entries.len() ==> ordered[#[trigger] slot(numbers(entries@), i)]
                == entries[i].0,
{
    let ghost keys = numbers(entries@);
    let count: usize = entries.len();
    let mut ordered: Vec<Palette> = Vec::new();
    while ordered.len() < count
        invariant
            ordered.len() <= count,
        decreases count - ordered.len(),
    {
        ordered.push(Palette { colors: [(0, 0, 0); 16] });
    }
    let mut i: usize = 0;
    while i < count
        invariant
            i <= count,
            count == entries.len(),
            ordered.len() == count,
            keys == numbers(entries@),
            forall|k: int| 0 <= k < i ==> ordered[#[trigger] slot(keys, k)] == entries[k].0,
        decreases count - i,
    {
        let place: usize = place_of(entries, i);
        let ghost before = ordered@;
        ordered[place] = entries[i].0;
        assert forall|k: int| 0 <= k < i + 1 implies ordered[#[trigger] slot(keys, k)]
            == entries[k].0 by {
            lemma_slot_bound(keys, k);
            if k < i {
                lemma_slot_distinct(keys, k, i as int);
                assert(before[slot(keys, k)] == entries[k].0);
            }
        }
        i += 1;
    }
    ordered
}

/// Whether `palettes` are the palettes of the palette files among `files`,
/// each at the place that its number gives it.
pub open spec fn ordered_palettes(files: Seq<PaletteFile>, palettes: Seq<Palette>) -> bool {
    &&& palettes.len() == files.filter(|file: PaletteFile| is_pal_name(file.name@)).len()
    &&& palettes.len() == loaded(files).len()
    &&& forall|i: int|
        0 <= i < loaded(files).len() ==> palettes[#[trigger] slot(numbers(loaded(files)), i)]@
            == loaded(files)[i].0
}

/// Palettes come out in the order of their numbers, wherever their files
/// stand in `files`: of two palette files, the one with the smaller number
/// has its palette at the earlier place.
pub proof fn lemma_palettes_follow_numbers(
    files: Seq<PaletteFile>,
    palettes: Seq<Palette>,
    a: int,
    b: int,
)
    requires
        ordered_palettes(files, palettes),
        0 <= a < loaded(files).len(),
        0 <= b < loaded(files).len(),
        loaded(files)[a].1 < loaded(files)[b].1,
    ensures
        0 <= slot(numbers(loaded(files)), a) < slot(numbers(loaded(files)), b) < palettes.len(),
        palettes[slot(numbers(loaded(files)), a)]@ == loaded(files)[a].0,
        palettes[slot(numbers(loaded(files)), b)]@ == loaded(files)[b].0,
{
    let keys = numbers(loaded(files));
    lemma_slot_order(keys, a, b);
    lemma_slot_bound(keys, a);
    lemma_slot_bound(keys, b);
}

/// Every place of the result holds the palette of a palette file: the
/// palettes are those of the palette files, and nothing else.
pub proof fn lemma_every_palette_is_of_a_file(
    files: Seq<PaletteFile>,
    palettes: Seq<Palette>,
    place: int,
)
    requires
        ordered_palettes(files, palettes),
        0 <= place < palettes.len(),
    ensures
        exists|i: int|
            0 <= i < loaded(files).len() && slot(numbers(loaded(files)), i) == place
                && palettes[place]@ == loaded(files)[i].0,
{
    let keys = numbers(loaded(files));
    lemma_slot_onto(keys, place);
    let i = choose|i: int| 0 <= i < keys.len() && slot(keys, i) == place;
    assert(palettes[slot(keys, i)]@ == loaded(files)[i].0);
}

/// The order of the files does not matter: when the palette files of `b`
/// are those of `a` in another order, and their numbers are all different,
/// the same palettes come out in the same places.
pub proof fn lemma_palettes_ignore_file_order(
    a: Seq<PaletteFile>,
    b: Seq<PaletteFile>,
    palettes_a: Seq<Palette>,
    palettes_b: Seq<Palette>,
)
    requires
        ordered_palettes(a, palettes_a),
        ordered_palettes(b, palettes_b),
        loaded(a).to_multiset() == loaded(b).to_multiset(),
        numbers(loaded(a)).no_duplicates(),
    ensures
        palettes_a.len() == palettes_b.len(),
        forall|place: int|
            0 <= place < palettes_a.len() ==> (#[trigger] palettes_a[place])@
                == palettes_b[place]@,
{
    broadcast use vstd::seq_lib::group_to_multiset_ensures;

    let entries_a = loaded(a);
    let entries_b = loaded(b);
    let keys_a = numbers(entries_a);
    let keys_b = numbers(entries_b);
    entries_a.to_multiset_ensures();
    entries_b.to_multiset_ensures();
    lemma_numbers_of_reordering(entries_a, entries_b);
    assert forall|place: int| 0 <= place < palettes_a.len() implies (#[trigger] palettes_a[place])@
        == palettes_b[place]@ by {
        lemma_slot_onto(keys_a, place);
        let i = choose|i: int| 0 <= i < keys_a.len() && slot(keys_a, i) == place;
        let entry = entries_a[i];
        assert(entries_a.contains(entry));
        assert(entries_b.to_multiset().count(entry) > 0);
        assert(entries_b.contains(entry));
        let j = choose|j: int| 0 <= j < entries_b.len() && entries_b[j] == entry;
        lemma_place_ignores_order(keys_a, keys_b, i, j);
        assert(palettes_a[slot(keys_a, i)]@ == entries_a[i].0);
        assert(palettes_b[slot(keys_b, j)]@ == entries_b[j].0);
    }
}

/// An error among the first files is the first error of all the files.
proof fn lemma_first_error_stays(files: Seq<PaletteFile>, n: int, error: FormatError)
    requires
        0 <= n <= files.len(),
        first_error(files.take(n)) == Some(error),
    ensures
        first_error(files) == Some(error),
    decreases files.len() - n,
{
    if n == files.len() {
        assert(files.take(n) =~= files);
    } else {
        assert(files.take(n + 1).drop_last() =~= files.take(n));
        lemma_first_error_stays(files, n + 1, error);
    }
}

/// There are as many loaded palettes as palette files.
pub proof fn lemma_loaded_count(files: Seq<PaletteFile>)
    ensures
        loaded(files).len() == files.filter(|file: PaletteFile| is_pal_name(file.name@)).len(),
    decreases files.len(),
{
    reveal(Seq::filter);
    if files.len() > 0 {
        lemma_loaded_count(files.drop_last());
    }
}

/// Loads the palettes of a directory, given the name and the contents of
/// each of its files, in any order. The files named `<number>.pal` are
/// palette files; all others are passed over. The palettes come out
/// ordered by their numbers, so that palette number `n` of a complete
/// directory is element `n` of the result. Palettes of one number, such as
/// `1.pal` and `01.pal`, keep the order of `files`.
///
/// The first palette file in `files` that does not load decides the error:
/// that of its contents, or else `PaletteName` for a base name that is no
/// number.
pub fn parse_all_palettes(files: &[PaletteFile]) -> (result: Result<Vec<Palette>, FormatError>)
    ensures
        match result {
            Ok(palettes) => first_error(files@) is None && ordered_palettes(files@, palettes@),
            Err(error) => first_error(files@) == Some(error),
        },
{
    let mut entries: Vec<(Palette, u32)> = Vec::new();
    let mut index: usize = 0;
    while index < files.len()
        invariant
            index <= files@.len(),
            first_error(files@.take(index as int)) is None,
            entries.len() == loaded(files@.take(index as int)).len(),
            forall|k: int|
                0 <= k < entries.len() ==> (#[trigger] entries[k]).0@ == loaded(
                    files@.take(index as int),
                )[k].0 && entries[k].1 == loaded(files@.take(index as int))[k].1,
        decreases files@.len() - index,
    {
        let file = &files[index];
        let ghost seen = files@.take(index as int);
        let ghost next = files@.take(index + 1);
        assert(next.drop_last() =~= seen);
        assert(next.last() == *file);
        if is_pal_file(file.name.as_slice()) {
            let palette = match parse_palette(file.contents.as_slice()) {
                Ok(palette) => palette,
                Err(error) => {
                    proof {
                        lemma_first_error_stays(files@, index + 1, error);
                    }
                    return Err(error);
                },
            };
            let number: u32 = match palette_number(file.name.as_slice()) {
                Some(number) => number,
                None => {
                    proof {
                        lemma_first_error_stays(files@, index + 1, FormatError::PaletteName);
                    }
                    return Err(FormatError::PaletteName);
                },
            };
            entries.push((palette, number));
        }
        index += 1;
    }
    assert(files@.take(index as int) =~= files@);
    proof {
        lemma_loaded_count(files@);
    }
    assert(numbers(entries@) =~= numbers(loaded(files@)));
    let palettes = order_by_number(&entries);
    assert forall|i: int| 0 <= i < loaded(files@).len() implies palettes[#[trigger] slot(
        numbers(loaded(files@)),
        i,
    )]@ == loaded(files@)[i].0 by {
        assert(palettes[slot(numbers(entries@), i)] == entries[i].0);
    }
    Ok(palettes)
}

} // verus!
