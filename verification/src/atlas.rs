//! Tile atlases: grids of 8 by 8 pixel tiles, stored two 4-bit pixels to the
//! byte.

use crate::error::FormatError;
use crate::raster::{is_grid, GrayRaster};
use crate::TILE_DIMENSION;
use vstd::prelude::*;

verus! {

/// Side length, in pixels, of one tile.
pub const TILE_PIXEL_DIM: usize = 8;

/// Number of pixels that one byte of an atlas holds.
pub const PIXELS_PER_BYTE: usize = 2;

/// The 4-bit pixel in column `x` of row `y` of an image `width` pixels wide
/// that is packed two pixels to the byte, rows first. The pixel in an even
/// column is the high half of its byte, the one in an odd column the low
/// half.
pub open spec fn packed_pixel(data: Seq<u8>, width: int, x: int, y: int) -> u8 {
    let byte = data[(y * width + x) / 2];
    if x % 2 == 0 {
        byte >> 4
    } else {
        byte & 0xf
    }
}

/// What a `TilesetImage` holds.
pub struct TilesetImageView {
    /// The packed pixel data, row by row over the whole width of the atlas.
    pub data: Seq<u8>,
    /// The number of tiles in one row of the atlas.
    pub columns: nat,
    /// The number of rows of tiles in the atlas.
    pub rows: nat,
}

/// A grid of `tile_width` by `tile_height` tiles of 8 by 8 pixels, four bits
/// per pixel. The pixel data is kept packed, and a tile is unpacked when it is
/// asked for.
#[derive(Debug)]
pub struct TilesetImage {
    tileset_data: Vec<u8>,
    tile_width: usize,
    tile_height: usize,
}

impl View for TilesetImage {
    type V = TilesetImageView;

    closed spec fn view(&self) -> TilesetImageView {
        TilesetImageView {
            data: self.tileset_data@,
            columns: self.tile_width as nat,
            rows: self.tile_height as nat,
        }
    }
}

impl TilesetImage {
    /// The packed pixels hold exactly two pixels per byte.
    #[verifier::type_invariant]
    spec fn sized(&self) -> bool {
        self.tileset_data@.len() == 32 * (self.tile_width * self.tile_height)
    }

    /// The number of tiles in the atlas. Tile ids run from 0 below it, in
    /// row-major order.
    pub open spec fn tile_count(&self) -> nat {
        self@.columns * self@.rows
    }

    /// The pixel value in column `col` of row `row` of tile `tile_id`. The
    /// tile lies in column `tile_id % columns` of row `tile_id / columns` of
    /// the grid of tiles.
    pub open spec fn tile_pixel(&self, tile_id: int, col: int, row: int) -> u8 {
        let tile_x = tile_id % (self@.columns as int);
        let tile_y = tile_id / (self@.columns as int);
        packed_pixel(self@.data, 8 * (self@.columns as int), 8 * tile_x + col, 8 * tile_y + row)
    }

    /// The 8 by 8 pixel values of tile `tile_id`, by rows.
    pub open spec fn tile(&self, tile_id: int) -> Seq<Seq<u8>> {
        Seq::new(8, |row: int| Seq::new(8, |col: int| self.tile_pixel(tile_id, col, row)))
    }

    /// Every pixel value of a tile fits in four bits.
    pub proof fn lemma_tile_pixel_bound(&self, tile_id: int, col: int, row: int)
        ensures
            self.tile_pixel(tile_id, col, row) < 16,
    {
        let tile_x = tile_id % (self@.columns as int);
        let tile_y = tile_id / (self@.columns as int);
        let x = 8 * tile_x + col;
        let y = 8 * tile_y + row;
        let byte = self@.data[(y * (8 * (self@.columns as int)) + x) / 2];
        assert(byte >> 4 < 16 && byte & 0xf < 16) by (bit_vector);
    }

    /// An atlas of `tile_width` by `tile_height` tiles over the packed pixels
    /// in `data`, or `None` if `data` does not hold exactly two pixels per
    /// byte for that size.
    pub fn new(data: Vec<u8>, tile_width: usize, tile_height: usize) -> (atlas: Option<
        TilesetImage,
    >)
        ensures
            atlas is Some <==> data@.len() == 32 * (tile_width * tile_height),
            atlas matches Some(a) ==> a@ == (TilesetImageView {
                data: data@,
                columns: tile_width as nat,
                rows: tile_height as nat,
            }),
    {
        let length: usize = data.len();
        let tiles: usize = match tile_width.checked_mul(tile_height) {
            Some(tiles) => tiles,
            None => {
                return None;
            },
        };
        let bytes: usize = match tiles.checked_mul(32) {
            Some(bytes) => bytes,
            None => {
                return None;
            },
        };
        if length == bytes {
            Some(TilesetImage { tileset_data: data, tile_width, tile_height })
        } else {
            None
        }
    }

    /// Unpacks tile `tile_id` into an 8 by 8 raster of pixel values, or
    /// returns `None` if the atlas has no such tile.
    pub fn get_tile(&self, tile_id: usize) -> (tile: Option<GrayRaster>)
        ensures
            tile is Some <==> tile_id < self.tile_count(),
            tile matches Some(raster) ==> raster@ == self.tile(tile_id as int),
    {
        proof {
            use_type_invariant(self);
            lemma_count_fits(self.tile_width as int, self.tile_height as int);
            assert(self.tileset_data@.len() == self.tileset_data.len());
        }
        if tile_id < self.tile_width * self.tile_height {
            let mut tile_image = GrayRaster::new(TILE_DIMENSION, TILE_DIMENSION);
            let tile_x: usize = tile_id % self.tile_width;
            let tile_y: usize = tile_id / self.tile_width;
            for row in 0..TILE_PIXEL_DIM
                invariant
                    self.sized(),
                    self.tileset_data@.len() <= usize::MAX,
                    tile_id < self.tile_width * self.tile_height,
                    tile_x == tile_id % self.tile_width,
                    tile_y == tile_id / self.tile_width,
                    is_grid(tile_image@, 8, 8),
                    forall|r: int, c: int|
                        0 <= r < row && 0 <= c < 8 ==> #[trigger] tile_image@[r][c]
                            == self.tile_pixel(tile_id as int, c, r),
            {
                for col in 0..TILE_PIXEL_DIM
                    invariant
                        self.sized(),
                        self.tileset_data@.len() <= usize::MAX,
                        0 <= row < 8,
                        tile_id < self.tile_width * self.tile_height,
                        tile_x == tile_id % self.tile_width,
                        tile_y == tile_id / self.tile_width,
                        is_grid(tile_image@, 8, 8),
                        forall|r: int, c: int|
                            0 <= r < row && 0 <= c < 8 ==> #[trigger] tile_image@[r][c]
                                == self.tile_pixel(tile_id as int, c, r),
                        forall|c: int|
                            0 <= c < col ==> #[trigger] tile_image@[row as int][c]
                                == self.tile_pixel(tile_id as int, c, row as int),
                {
                    proof {
                        lemma_pixel_offset(
                            self.tile_width as int,
                            self.tile_height as int,
                            tile_id as int,
                            col as int,
                            row as int,
                        );
                    }
                    let pixel_x: usize = tile_x * TILE_PIXEL_DIM + col;
                    let pixel_y: usize = tile_y * TILE_PIXEL_DIM + row;
                    let row_bytes: usize = self.tile_width * (TILE_PIXEL_DIM / PIXELS_PER_BYTE);
                    let offset: usize = pixel_y * row_bytes + pixel_x / PIXELS_PER_BYTE;
                    let byte: u8 = self.tileset_data[offset];
                    let value: u8 = if col % PIXELS_PER_BYTE == 0 {
                        byte >> 4
                    } else {
                        byte & 0xf
                    };
                    tile_image.put(col as u32, row as u32, value);
                }
            }
            assert(tile_image@ =~~= self.tile(tile_id as int));
            Some(tile_image)
        } else {
            None
        }
    }
}

/// The byte count of an atlas bounds its tile count.
proof fn lemma_count_fits(columns: int, rows: int)
    requires
        0 <= columns,
        0 <= rows,
    ensures
        0 <= columns * rows <= 32 * (columns * rows),
{
    assert(0 <= columns * rows) by (nonlinear_arith)
        requires
            0 <= columns,
            0 <= rows,
    ;
}

/// Where the pixel in column `col` of row `row` of tile `tile_id` lies in
/// the packed data of an atlas of `columns` by `rows` tiles.
proof fn lemma_pixel_offset(columns: int, rows: int, tile_id: int, col: int, row: int)
    requires
        0 <= tile_id < columns * rows,
        0 <= columns,
        0 <= rows,
        0 <= col < 8,
        0 <= row < 8,
    ensures
        columns > 0,
        0 <= tile_id % columns < columns,
        0 <= tile_id / columns < rows,
        ({
            let x = 8 * (tile_id % columns) + col;
            let y = 8 * (tile_id / columns) + row;
            &&& 0 <= y * (columns * 4) + x / 2 < 32 * (columns * rows)
            &&& (y * (8 * columns) + x) / 2 == y * (columns * 4) + x / 2
            &&& x % 2 == col % 2
            &&& 0 <= x < 8 * columns <= 32 * (columns * rows)
            &&& 0 <= y < 8 * rows <= 32 * (columns * rows)
        }),
{
    if columns == 0 {
        assert(columns * rows == 0) by (nonlinear_arith)
            requires
                columns == 0,
        ;
    }
    let tile_x = tile_id % columns;
    let tile_y = tile_id / columns;
    vstd::arithmetic::div_mod::lemma_fundamental_div_mod(tile_id, columns);
    vstd::arithmetic::div_mod::lemma_div_pos_is_pos(tile_id, columns);
    assert(tile_y < rows) by (nonlinear_arith)
        requires
            tile_id == columns * tile_y + tile_x,
            0 <= tile_x,
            tile_id < columns * rows,
            columns > 0,
    ;
    let x = 8 * tile_x + col;
    let y = 8 * tile_y + row;
    assert(y * (8 * columns) == 2 * (y * (columns * 4))) by (nonlinear_arith);
    assert(0 <= y * (columns * 4) <= (8 * rows - 1) * (columns * 4)) by (nonlinear_arith)
        requires
            0 <= y <= 8 * rows - 1,
            columns > 0,
    ;
    assert((8 * rows - 1) * (columns * 4) == 32 * (columns * rows) - 4 * columns)
        by (nonlinear_arith);
    assert(columns <= columns * rows && rows <= columns * rows) by (nonlinear_arith)
        requires
            rows >= 1,
            columns >= 1,
    ;
}

/// The bit depth of a tile atlas.
pub const ATLAS_BIT_DEPTH: u8 = 4;

/// The color type that a PNG header gives an indexed-color image.
pub const PNG_COLOR_INDEXED: u8 = 3;

/// `png::DecodingError`, the error of the PNG decoder. Nothing is known of
/// a value of it but that the decoder gave up.
#[verifier::external_type_specification]
#[verifier::external_body]
pub struct ExDecodingError(png::DecodingError);

/// The header of a PNG image, as plain numbers.
#[derive(Clone, Copy, Debug, PartialEq, Eq, Structural)]
pub struct PngHeader {
    /// Width in pixels.
    pub width: u32,
    /// Height in pixels.
    pub height: u32,
    /// Bits per sample: 1, 2, 4, 8 or 16.
    pub bit_depth: u8,
    /// Color type code: 0 grayscale, 2 RGB, 3 indexed, 4 grayscale with
    /// alpha, 6 RGB with alpha.
    pub color_type: u8,
}

/// The first frame of a PNG image, as the decoder hands it out.
#[derive(Debug)]
pub struct PngFrame {
    /// Width of the frame in pixels.
    pub width: u32,
    /// Height of the frame in pixels.
    pub height: u32,
    /// Number of bytes that one row of the frame takes in `data`.
    pub line_size: usize,
    /// The buffer that the frame was decoded into, rows first.
    pub data: Vec<u8>,
}

/// What a `PngFrame` holds.
pub struct PngFrameView {
    /// Width of the frame in pixels.
    pub width: u32,
    /// Height of the frame in pixels.
    pub height: u32,
    /// Number of bytes that one row of the frame takes in `data`.
    pub line_size: usize,
    /// The buffer that the frame was decoded into, rows first.
    pub data: Seq<u8>,
}

impl View for PngFrame {
    type V = PngFrameView;

    open spec fn view(&self) -> PngFrameView {
        PngFrameView {
            width: self.width,
            height: self.height,
            line_size: self.line_size,
            data: self.data@,
        }
    }
}

/// The header that the PNG decoder reads from an encoded image, or `None` if
/// it rejects the image before it has read one.
pub uninterp spec fn png_header(bytes: Seq<u8>) -> Option<PngHeader>;

/// The first frame that the PNG decoder decodes from an encoded image,
/// without any transformation of the samples, or `None` if it rejects the
/// image.
pub uninterp spec fn png_frame(bytes: Seq<u8>) -> Option<PngFrameView>;

/// `png::Decoder::read_header_info` on a decoder over `bytes`: the size, the
/// bit depth and the color type that the image header states. Decoding
/// depends on the bytes alone, so the outcome is `png_header` of them.
#[verifier::external_body]
fn read_png_header(bytes: &[u8]) -> (header: Result<PngHeader, png::DecodingError>)
    ensures
        match header {
            Ok(h) => png_header(bytes@) == Some(h),
            Err(_) => png_header(bytes@) is None,
        },
{
    let mut decoder = png::Decoder::new(bytes);
    let info = decoder.read_header_info()?;
    Ok(
        PngHeader {
            width: info.width,
            height: info.height,
            bit_depth: info.bit_depth as u8,
            color_type: info.color_type as u8,
        },
    )
}

/// `png::Decoder::read_info` and `png::Reader::next_frame` on a decoder over
/// `bytes`, into a buffer of `png::Reader::output_buffer_size` bytes: the
/// size and the row length that the decoder reports of the frame, and the
/// buffer. Decoding depends on the bytes alone, so the outcome is
/// `png_frame` of them. The buffer holds the rows that the header
/// announces, at two pixels to the byte for an image of four bits per
/// pixel; the precondition keeps it within what a vector can hold.
#[verifier::external_body]
fn read_png_frame(bytes: &[u8]) -> (frame: Result<PngFrame, png::DecodingError>)
    requires
        png_header(bytes@) matches Some(header) && header.bit_depth == 4 && header.color_type == 3
            && ((header.width + 1) / 2) * header.height <= isize::MAX,
    ensures
        match frame {
            Ok(f) => png_frame(bytes@) == Some(f@),
            Err(_) => png_frame(bytes@) is None,
        },
{
    let mut reader = png::Decoder::new(bytes).read_info()?;
    let mut data = vec![0u8; reader.output_buffer_size()];
    let info = reader.next_frame(&mut data)?;
    Ok(PngFrame { width: info.width, height: info.height, line_size: info.line_size, data })
}

/// The number of bytes that the pixels of an image of four bits per pixel
/// take, for a width that is even.
pub open spec fn packed_size(header: PngHeader) -> int {
    (header.width / 2) * header.height
}

/// Why an image with the given header cannot be a tile atlas, if it cannot:
/// an atlas has four bits per pixel, sides that are multiples of eight
/// pixels with pixels that fit in a vector, and indexed colors.
pub open spec fn header_error(header: PngHeader) -> Option<FormatError> {
    if header.bit_depth != ATLAS_BIT_DEPTH {
        Some(FormatError::AtlasBitDepth)
    } else if header.width % 8 != 0 || header.height % 8 != 0 || packed_size(header) > isize::MAX {
        Some(FormatError::AtlasDimensions)
    } else if header.color_type != PNG_COLOR_INDEXED {
        Some(FormatError::AtlasColorType)
    } else {
        None
    }
}

/// Tests whether an image with the given header can be a tile atlas.
pub fn check_header(header: &PngHeader) -> (result: Result<(), FormatError>)
    ensures
        result == match header_error(*header) {
            Some(error) => Err::<(), FormatError>(error),
            None => Ok(()),
        },
{
    assert((header.width / 2) * header.height <= 0x7fff_ffff * 0xffff_ffff) by (nonlinear_arith)
        requires
            0 <= header.width / 2 <= 0x7fff_ffff,
            0 <= header.height <= 0xffff_ffff,
    ;
    let size: u64 = (header.width / 2) as u64 * header.height as u64;
    if header.bit_depth != ATLAS_BIT_DEPTH {
        Err(FormatError::AtlasBitDepth)
    } else if header.width % 8 != 0 || header.height % 8 != 0 || size > isize::MAX as u64 {
        Err(FormatError::AtlasDimensions)
    } else if header.color_type != PNG_COLOR_INDEXED {
        Err(FormatError::AtlasColorType)
    } else {
        Ok(())
    }
}

/// The first `length` bytes of `data`, with zeros after them if `data` is
/// shorter.
pub open spec fn resized(data: Seq<u8>, length: int) -> Seq<u8> {
    Seq::new(
        length as nat,
        |i: int|
            if i < data.len() {
                data[i]
            } else {
                0u8
            },
    )
}

/// Whether a decoded frame is the whole image that `header` announces, at
/// two pixels to the byte.
pub open spec fn frame_matches(header: PngHeader, frame: PngFrameView) -> bool {
    &&& frame.width == header.width
    &&& frame.height == header.height
    &&& frame.line_size * frame.height <= usize::MAX
    &&& frame.line_size * frame.height == (header.width * header.height) / 2
}

/// The atlas that a decoded image makes, or why it makes none. The pixel
/// data is the frame's buffer cut to the rows of the frame.
pub open spec fn atlas_of(header: PngHeader, frame: PngFrameView) -> Result<
    TilesetImageView,
    FormatError,
> {
    match header_error(header) {
        Some(error) => Err(error),
        None => if !frame_matches(header, frame) {
            Err(FormatError::AtlasData)
        } else {
            Ok(
                TilesetImageView {
                    data: resized(frame.data, frame.line_size * frame.height),
                    columns: (header.width / 8) as nat,
                    rows: (header.height / 8) as nat,
                },
            )
        },
    }
}

/// The atlas that an encoded image makes, given what the decoder reads from
/// it, or why it makes none. An image that the decoder rejects is badly
/// encoded; the header is judged before the frame is looked at.
pub open spec fn atlas_of_decoded(header: Option<PngHeader>, frame: Option<PngFrameView>) -> Result<
    TilesetImageView,
    FormatError,
> {
    match header {
        None => Err(FormatError::AtlasEncoding),
        Some(h) => match header_error(h) {
            Some(error) => Err(error),
            None => match frame {
                None => Err(FormatError::AtlasEncoding),
                Some(f) => atlas_of(h, f),
            },
        },
    }
}

/// An image of whole tiles holds 32 bytes per tile.
proof fn lemma_bytes_per_tile(width: int, height: int)
    requires
        0 <= width,
        0 <= height,
        width % 8 == 0,
        height % 8 == 0,
    ensures
        (width * height) / 2 == 32 * ((width / 8) * (height / 8)),
{
    let columns = width / 8;
    let rows = height / 8;
    assert(width * height == 64 * (columns * rows)) by (nonlinear_arith)
        requires
            width == 8 * columns,
            height == 8 * rows,
    ;
}

impl TilesetImage {
    /// Makes an atlas of a decoded image: of its header and its first frame.
    /// The header must announce four bits per pixel, indexed colors and
    /// sides that are multiples of eight pixels, and the frame must be the
    /// whole image at two pixels to the byte.
    pub fn from_png(header: &PngHeader, frame: PngFrame) -> (result: Result<
        TilesetImage,
        FormatError,
    >)
        ensures
            match result {
                Ok(atlas) => atlas_of(*header, frame@) == Ok::<TilesetImageView, FormatError>(
                    atlas@,
                ),
                Err(error) => atlas_of(*header, frame@) == Err::<TilesetImageView, FormatError>(
                    error,
                ),
            },
    {
        if let Err(error) = check_header(header) {
            return Err(error);
        }
        if frame.width != header.width || frame.height != header.height {
            return Err(FormatError::AtlasData);
        }
        let ghost decoded = frame.data@;
        let size: usize = match frame.line_size.checked_mul(frame.height as usize) {
            Some(size) => size,
            None => {
                return Err(FormatError::AtlasData);
            },
        };
        assert(header.width * header.height <= 0xffff_ffff * 0xffff_ffff) by (nonlinear_arith)
            requires
                0 <= header.width <= 0xffff_ffff,
                0 <= header.height <= 0xffff_ffff,
        ;
        let expected: u64 = (header.width as u64 * header.height as u64) / 2;
        if size as u64 != expected {
            return Err(FormatError::AtlasData);
        }
        let mut tileset_data = frame.data;
        if size <= tileset_data.len() {
            tileset_data.truncate(size);
        } else {
            while tileset_data.len() < size
                invariant
                    decoded.len() <= tileset_data@.len() <= size,
                    forall|i: int|
                        0 <= i < tileset_data@.len() ==> tileset_data@[i] == (if i < decoded.len() {
                            decoded[i]
                        } else {
                            0u8
                        }),
                decreases size - tileset_data@.len(),
            {
                tileset_data.push(0);
            }
        }
        assert(tileset_data@ =~= resized(decoded, size as int));
        proof {
            lemma_bytes_per_tile(header.width as int, header.height as int);
        }
        Ok(
            TilesetImage {
                tileset_data,
                tile_width: (header.width / 8) as usize,
                tile_height: (header.height / 8) as usize,
            },
        )
    }
}

/// Decodes a tile atlas from an encoded PNG image. The image must decode,
/// have four bits per pixel, indexed colors, and sides that are multiples
/// of eight pixels; otherwise the error says which of these failed first.
pub fn parse_tileset_png(bytes: &[u8]) -> (result: Result<TilesetImage, FormatError>)
    ensures
        match result {
            Ok(atlas) => atlas_of_decoded(png_header(bytes@), png_frame(bytes@)) == Ok::<
                TilesetImageView,
                FormatError,
            >(atlas@),
            Err(error) => atlas_of_decoded(png_header(bytes@), png_frame(bytes@)) == Err::<
                TilesetImageView,
                FormatError,
            >(error),
        },
{
    let header = match read_png_header(bytes) {
        Ok(header) => header,
        Err(_) => {
            return Err(FormatError::AtlasEncoding);
        },
    };
    if let Err(error) = check_header(&header) {
        return Err(error);
    }
    let frame = match read_png_frame(bytes) {
        Ok(frame) => frame,
        Err(_) => {
            return Err(FormatError::AtlasEncoding);
        },
    };
    TilesetImage::from_png(&header, frame)
}

} // verus!
