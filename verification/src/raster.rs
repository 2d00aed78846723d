//! Pixel buffers.
//!
//! The buffers are those of the `image` crate. Proofs cannot look inside
//! them, so each buffer is described by its rows of pixels, and the few
//! operations used on it are stated over those rows without proof.

use vstd::prelude::*;

verus! {

/// An RGB color.
pub type Rgb = (u8, u8, u8);

/// An RGB color with an alpha channel.
pub type Rgba = (u8, u8, u8, u8);

/// Whether `rows` is a grid of `height` rows of `width` pixels each.
pub open spec fn is_grid<T>(rows: Seq<Seq<T>>, width: int, height: int) -> bool {
    &&& rows.len() == height
    &&& forall|y: int| 0 <= y < height ==> (#[trigger] rows[y]).len() == width
}

/// The grid of `height` rows of `width` pixels that all hold `value`.
pub open spec fn uniform_grid<T>(width: int, height: int, value: T) -> Seq<Seq<T>> {
    Seq::new(height as nat, |y: int| Seq::new(width as nat, |x: int| value))
}

/// `rows` with the pixel in column `x` of row `y` replaced by `value`.
pub open spec fn with_pixel<T>(rows: Seq<Seq<T>>, x: int, y: int, value: T) -> Seq<Seq<T>> {
    rows.update(y, rows[y].update(x, value))
}

/// The pixel in column `x` of row `y`, if `rows` has one there.
pub open spec fn pixel_at<T>(rows: Seq<Seq<T>>, x: int, y: int) -> Option<T> {
    if 0 <= y < rows.len() && 0 <= x < rows[y].len() {
        Some(rows[y][x])
    } else {
        None
    }
}

/// `dst` with `src` laid over it, the top-left pixel of `src` in column `x`
/// of row `y`.
pub open spec fn overlaid<T>(dst: Seq<Seq<T>>, src: Seq<Seq<T>>, x: int, y: int) -> Seq<Seq<T>> {
    Seq::new(
        dst.len(),
        |j: int|
            Seq::new(
                dst[j].len(),
                |i: int|
                    if y <= j < y + src.len() && x <= i < x + src[j - y].len() {
                        src[j - y][i - x]
                    } else {
                        dst[j][i]
                    },
            ),
    )
}

/// A buffer of 8-bit single-channel pixels, held as an `image::GrayImage`.
#[verifier::external_body]
pub struct GrayRaster {
    inner: image::GrayImage,
}

/// The rows of a `GrayRaster`, top to bottom, each from left to right.
pub uninterp spec fn gray_rows(raster: GrayRaster) -> Seq<Seq<u8>>;

impl View for GrayRaster {
    type V = Seq<Seq<u8>>;

    open spec fn view(&self) -> Seq<Seq<u8>> {
        gray_rows(*self)
    }
}

impl GrayRaster {
    /// `image::ImageBuffer::new`: a buffer of the given size whose samples
    /// are all zero. The call panics when the samples of a row or of the
    /// buffer cannot be counted in a `usize`, or when the buffer is larger
    /// than a vector can be; the precondition rules these out.
    #[verifier::external_body]
    pub(crate) fn new(width: u32, height: u32) -> (raster: GrayRaster)
        requires
            width <= usize::MAX,
            width * height <= isize::MAX,
        ensures
            gray_rows(raster) == uniform_grid(width as int, height as int, 0u8),
    {
        GrayRaster { inner: image::ImageBuffer::new(width, height) }
    }

    /// `image::ImageBuffer::get_pixel_checked`: the pixel at `(x, y)`, or
    /// `None` when the position lies outside the buffer.
    #[verifier::external_body]
    pub(crate) fn get(&self, x: u32, y: u32) -> (value: Option<u8>)
        ensures
            value == pixel_at(gray_rows(*self), x as int, y as int),
    {
        self.inner.get_pixel_checked(x, y).map(|p| p.0[0])
    }

    /// `image::ImageBuffer::get_pixel_mut`, assigned through: the pixel at
    /// `(x, y)` becomes `value` and no other pixel changes. The call panics
    /// outside the buffer, which the precondition rules out.
    #[verifier::external_body]
    pub(crate) fn put(&mut self, x: u32, y: u32, value: u8)
        requires
            pixel_at(gray_rows(*old(self)), x as int, y as int) is Some,
        ensures
            gray_rows(*final(self)) == with_pixel(gray_rows(*old(self)), x as int, y as int, value),
    {
        *self.inner.get_pixel_mut(x, y) = image::Luma([value]);
    }

    /// The pixel in column `x` of row `y`, or `None` outside the buffer.
    pub fn pixel(&self, x: u32, y: u32) -> (value: Option<u8>)
        ensures
            value == pixel_at(self@, x as int, y as int),
    {
        self.get(x, y)
    }
}

/// A buffer of 8-bit RGBA pixels, held as an `image::RgbaImage`.
#[verifier::external_body]
pub struct RgbaRaster {
    inner: image::RgbaImage,
}

/// The rows of an `RgbaRaster`, top to bottom, each from left to right.
pub uninterp spec fn rgba_rows(raster: RgbaRaster) -> Seq<Seq<Rgba>>;

impl View for RgbaRaster {
    type V = Seq<Seq<Rgba>>;

    open spec fn view(&self) -> Seq<Seq<Rgba>> {
        rgba_rows(*self)
    }
}

impl RgbaRaster {
    /// `image::ImageBuffer::new`: a buffer of the given size whose samples
    /// are all zero. The call panics when the samples of a row or of the
    /// buffer cannot be counted in a `usize`, or when the buffer is larger
    /// than a vector can be; the precondition rules these out.
    #[verifier::external_body]
    pub(crate) fn new(width: u32, height: u32) -> (raster: RgbaRaster)
        requires
            4 * width <= usize::MAX,
            4 * width * height <= isize::MAX,
        ensures
            rgba_rows(raster) == uniform_grid(width as int, height as int, (0u8, 0u8, 0u8, 0u8)),
    {
        RgbaRaster { inner: image::ImageBuffer::new(width, height) }
    }

    /// `image::ImageBuffer::get_pixel_checked`: the pixel at `(x, y)`, or
    /// `None` when the position lies outside the buffer.
    #[verifier::external_body]
    pub(crate) fn get(&self, x: u32, y: u32) -> (value: Option<Rgba>)
        ensures
            value == pixel_at(rgba_rows(*self), x as int, y as int),
    {
        self.inner.get_pixel_checked(x, y).map(|p| (p.0[0], p.0[1], p.0[2], p.0[3]))
    }

    /// `image::ImageBuffer::get_pixel_mut`, assigned through: the pixel at
    /// `(x, y)` becomes `value` and no other pixel changes. The call panics
    /// outside the buffer, which the precondition rules out.
    #[verifier::external_body]
    pub(crate) fn put(&mut self, x: u32, y: u32, value: Rgba)
        requires
            pixel_at(rgba_rows(*old(self)), x as int, y as int) is Some,
        ensures
            rgba_rows(*final(self)) == with_pixel(rgba_rows(*old(self)), x as int, y as int, value),
    {
        *self.inner.get_pixel_mut(x, y) = image::Rgba([value.0, value.1, value.2, value.3]);
    }

    /// The pixel in column `x` of row `y`, or `None` outside the buffer.
    pub fn pixel(&self, x: u32, y: u32) -> (value: Option<Rgba>)
        ensures
            value == pixel_at(self@, x as int, y as int),
    {
        self.get(x, y)
    }
}

/// A buffer of 8-bit RGB pixels, held as an `image::RgbImage`.
#[verifier::external_body]
pub struct RgbRaster {
    inner: image::RgbImage,
}

/// The rows of an `RgbRaster`, top to bottom, each from left to right.
pub uninterp spec fn rgb_rows(raster: RgbRaster) -> Seq<Seq<Rgb>>;

impl View for RgbRaster {
    type V = Seq<Seq<Rgb>>;

    open spec fn view(&self) -> Seq<Seq<Rgb>> {
        rgb_rows(*self)
    }
}

impl RgbRaster {
    /// `image::ImageBuffer::new`: a buffer of the given size whose samples
    /// are all zero. The call panics when the samples of a row or of the
    /// buffer cannot be counted in a `usize`, or when the buffer is larger
    /// than a vector can be; the precondition rules these out.
    #[verifier::external_body]
    pub(crate) fn new(width: u32, height: u32) -> (raster: RgbRaster)
        requires
            3 * width <= usize::MAX,
            3 * width * height <= isize::MAX,
        ensures
            rgb_rows(raster) == uniform_grid(width as int, height as int, (0u8, 0u8, 0u8)),
    {
        RgbRaster { inner: image::ImageBuffer::new(width, height) }
    }

    /// `image::ImageBuffer::get_pixel_checked`: the pixel at `(x, y)`, or
    /// `None` when the position lies outside the buffer.
    #[verifier::external_body]
    pub(crate) fn get(&self, x: u32, y: u32) -> (value: Option<Rgb>)
        ensures
            value == pixel_at(rgb_rows(*self), x as int, y as int),
    {
        self.inner.get_pixel_checked(x, y).map(|p| (p.0[0], p.0[1], p.0[2]))
    }

    /// `image::ImageBuffer::get_pixel_mut`, assigned through: the pixel at
    /// `(x, y)` becomes `value` and no other pixel changes. The call panics
    /// outside the buffer, which the precondition rules out.
    #[verifier::external_body]
    pub(crate) fn put(&mut self, x: u32, y: u32, value: Rgb)
        requires
            pixel_at(rgb_rows(*old(self)), x as int, y as int) is Some,
        ensures
            rgb_rows(*final(self)) == with_pixel(rgb_rows(*old(self)), x as int, y as int, value),
    {
        *self.inner.get_pixel_mut(x, y) = image::Rgb([value.0, value.1, value.2]);
    }

    /// `image::GenericImage::copy_from`: every pixel of `other` is copied
    /// into this buffer, the top-left pixel of `other` landing at `(x, y)`;
    /// the pixels outside that rectangle stay. The call fails when `other`
    /// does not fit there, and its bounds test overflows past `u32::MAX`;
    /// the precondition rules both out.
    #[verifier::external_body]
    pub(crate) fn copy_from(&mut self, other: &RgbRaster, x: u32, y: u32)
        requires
            rgb_rows(*other).len() > 0,
            is_grid(rgb_rows(*other), rgb_rows(*other)[0].len() as int, rgb_rows(*other).len() as int),
            rgb_rows(*old(self)).len() > 0,
            is_grid(
                rgb_rows(*old(self)),
                rgb_rows(*old(self))[0].len() as int,
                rgb_rows(*old(self)).len() as int,
            ),
            x + rgb_rows(*other)[0].len() <= rgb_rows(*old(self))[0].len(),
            y + rgb_rows(*other).len() <= rgb_rows(*old(self)).len(),
        ensures
            rgb_rows(*final(self)) == overlaid(rgb_rows(*old(self)), rgb_rows(*other), x as int, y as int),
    {
        let _ = image::GenericImage::copy_from(&mut self.inner, &other.inner, x, y);
    }

    /// The pixel in column `x` of row `y`, or `None` outside the buffer.
    pub fn pixel(&self, x: u32, y: u32) -> (value: Option<Rgb>)
        ensures
            value == pixel_at(self@, x as int, y as int),
    {
        self.get(x, y)
    }
}

} // verus!
