//! Pixel buffers and the raster operations the pyramid needs.
//!
//! A [`Raster`] is an RGBA buffer of the `image` crate, held opaquely.
//! What a buffer holds is named by the spec functions [`img_width`],
//! [`img_height`] and [`img_pixels`], and every raster operation the
//! pyramid logic uses (allocate blank, crop, paste, downsample) goes
//! through a trusted wrapper whose contract states, over those names,
//! what the crate's own code does.  Buffers cross the crate boundary as
//! plain dimensions and raw bytes, row-major with four bytes per pixel.

use vstd::prelude::*;

verus! {

/// An RGBA pixel buffer.
#[verifier::external_body]
pub struct Raster {
    img: image::RgbaImage,
}

/// Width in pixels of a buffer.
pub uninterp spec fn img_width(img: Raster) -> u32;

/// Height in pixels of a buffer.
pub uninterp spec fn img_height(img: Raster) -> u32;

/// The samples of a buffer: the `(red, green, blue, alpha)` value at
/// every in-range `(x, y)` position.
pub uninterp spec fn img_pixels(img: Raster) -> Map<(int, int), (u8, u8, u8, u8)>;

/// What `imageops::resize` with the Catmull-Rom filter makes of a source
/// buffer: a pure function of the source samples, the source dimensions
/// and the target dimensions.
pub uninterp spec fn catmull_resized(
    src: Map<(int, int), (u8, u8, u8, u8)>,
    src_w: int,
    src_h: int,
    w: int,
    h: int,
) -> Map<(int, int), (u8, u8, u8, u8)>;

/// The sample at position `(x, y)`.
pub open spec fn pix(img: Raster, x: int, y: int) -> (u8, u8, u8, u8) {
    img_pixels(img)[(x, y)]
}

/// A fully transparent sample.
pub open spec fn clear_pixel() -> (u8, u8, u8, u8) {
    (0u8, 0u8, 0u8, 0u8)
}

/// The in-range samples of a buffer, as a map over exactly its grid.
pub open spec fn pixel_map(img: Raster) -> Map<(int, int), (u8, u8, u8, u8)> {
    Map::new(
        |p: (int, int)| 0 <= p.0 < img_width(img) && 0 <= p.1 < img_height(img),
        |p: (int, int)| pix(img, p.0, p.1),
    )
}

/// Every in-range sample of the buffer is fully transparent.
pub open spec fn is_clear(img: Raster) -> bool {
    forall|x: int, y: int|
        0 <= x < img_width(img) && 0 <= y < img_height(img) ==> #[trigger] pix(img, x, y)
            == clear_pixel()
}

/// The tile side length: every persisted tile is exactly this size.
pub const TILE_SIZE: u32 = 256;

/// The buffer has exactly the fixed tile dimensions.
pub open spec fn is_tile(img: Raster) -> bool {
    img_width(img) == TILE_SIZE && img_height(img) == TILE_SIZE
}

impl Raster {
    /// Relies on `image::RgbaImage::from_raw`: succeeds exactly when the
    /// byte buffer covers `4 * w * h` samples, and then reads it
    /// row-major, four bytes per pixel.
    #[verifier::external_body]
    pub fn from_raw(w: u32, h: u32, data: Vec<u8>) -> (r: Option<Raster>)
        requires
            w <= 0x100000,
            h <= 0x100000,
        ensures
            r.is_some() <==> 4 * (w as int) * (h as int) <= data@.len(),
            r.is_some() ==> {
                &&& img_width(r->0) == w
                &&& img_height(r->0) == h
                &&& forall|x: int, y: int|
                    0 <= x < w && 0 <= y < h ==> #[trigger] img_pixels(r->0)[(x, y)] == (
                        data@[(y * w + x) * 4],
                        data@[(y * w + x) * 4 + 1],
                        data@[(y * w + x) * 4 + 2],
                        data@[(y * w + x) * 4 + 3],
                    )
            },
    {
        image::RgbaImage::from_raw(w, h, data).map(|img| Raster { img })
    }

    /// Relies on `image::ImageBuffer::as_raw`: hands the samples out
    /// row-major, four bytes per pixel.
    #[verifier::external_body]
    pub fn to_raw(&self) -> (r: Vec<u8>)
        ensures
            r@.len() >= 4 * (img_width(*self) as int) * (img_height(*self) as int),
            forall|x: int, y: int|
                0 <= x < img_width(*self) && 0 <= y < img_height(*self)
                    ==> #[trigger] img_pixels(*self)[(x, y)] == (
                    r@[(y * img_width(*self) + x) * 4],
                    r@[(y * img_width(*self) + x) * 4 + 1],
                    r@[(y * img_width(*self) + x) * 4 + 2],
                    r@[(y * img_width(*self) + x) * 4 + 3],
                ),
    {
        self.img.as_raw().clone()
    }

    /// Relies on `image::ImageBuffer::dimensions`: returns the buffer's
    /// width and height.
    #[verifier::external_body]
    pub fn dims(&self) -> (r: (u32, u32))
        ensures
            r.0 == img_width(*self),
            r.1 == img_height(*self),
    {
        self.img.dimensions()
    }

    /// Relies on `image::ImageBuffer::clone`: the copy holds the same
    /// dimensions and the same samples, field for field.
    #[verifier::external_body]
    pub fn duplicate(&self) -> (r: Raster)
        ensures
            r == *self,
            img_pixels(r) == img_pixels(*self),
    {
        Raster { img: self.img.clone() }
    }

    /// Relies on `image::RgbaImage::new`: a fresh buffer of the given
    /// dimensions with every sample zeroed, hence fully transparent.
    #[verifier::external_body]
    pub(crate) fn blank(w: u32, h: u32) -> (r: Raster)
        requires
            w <= 4096,
            h <= 4096,
        ensures
            img_width(r) == w,
            img_height(r) == h,
            forall|x: int, y: int| 0 <= x < w && 0 <= y < h ==> #[trigger] pix(r, x, y)
                == clear_pixel(),
    {
        Raster { img: image::RgbaImage::new(w, h) }
    }

    /// Relies on `image::imageops::crop_imm` followed by
    /// `SubImage::to_image`: the copied region is the requested rectangle
    /// clamped to the source bounds, so with an in-bounds origin the
    /// result is `min(w, source width - x)` by `min(h, source height - y)`
    /// and holds the source samples shifted by the origin.
    #[verifier::external_body]
    pub(crate) fn crop(&self, x: u32, y: u32, w: u32, h: u32) -> (r: Raster)
        requires
            x <= img_width(*self),
            y <= img_height(*self),
        ensures
            img_width(r) == if w <= img_width(*self) - x {
                w as int
            } else {
                img_width(*self) - x
            },
            img_height(r) == if h <= img_height(*self) - y {
                h as int
            } else {
                img_height(*self) - y
            },
            forall|i: int, j: int|
                0 <= i < img_width(r) && 0 <= j < img_height(r) ==> #[trigger] pix(r, i, j)
                    == pix(*self, x + i, y + j),
    {
        Raster { img: image::imageops::crop_imm(&self.img, x, y, w, h).to_image() }
    }

    /// Relies on `image::imageops::replace`: copies the top buffer onto
    /// this one at the given offset; with the top fully inside, exactly
    /// the covered rectangle changes.
    #[verifier::external_body]
    pub(crate) fn paste(&mut self, top: &Raster, x: u32, y: u32)
        requires
            x + img_width(*top) <= img_width(*old(self)),
            y + img_height(*top) <= img_height(*old(self)),
        ensures
            img_width(*final(self)) == img_width(*old(self)),
            img_height(*final(self)) == img_height(*old(self)),
            forall|i: int, j: int|
                0 <= i < img_width(*top) && 0 <= j < img_height(*top) ==> #[trigger] pix(
                    *final(self),
                    x + i,
                    y + j,
                ) == pix(*top, i, j),
            forall|i: int, j: int|
                0 <= i < img_width(*old(self)) && 0 <= j < img_height(*old(self)) && !(x <= i < x
                    + img_width(*top) && y <= j < y + img_height(*top)) ==> #[trigger] pix(
                    *final(self),
                    i,
                    j,
                ) == pix(*old(self), i, j),
    {
        image::imageops::replace(&mut self.img, &top.img, x as i64, y as i64)
    }

    /// Relies on `image::imageops::resize` with `FilterType::CatmullRom`:
    /// the result has exactly the requested dimensions, and its samples
    /// depend on the source samples and the dimensions alone.
    #[verifier::external_body]
    pub(crate) fn resize_catmull_rom(&self, w: u32, h: u32) -> (r: Raster)
        requires
            1 <= w <= 4096,
            1 <= h <= 4096,
            1 <= img_width(*self),
            1 <= img_height(*self),
        ensures
            img_width(r) == w,
            img_height(r) == h,
            forall|i: int, j: int|
                0 <= i < w && 0 <= j < h ==> #[trigger] pix(r, i, j) == catmull_resized(
                    pixel_map(*self),
                    img_width(*self) as int,
                    img_height(*self) as int,
                    w as int,
                    h as int,
                )[(i, j)],
    {
        Raster {
            img: image::imageops::resize(&self.img, w, h, image::imageops::FilterType::CatmullRom),
        }
    }
}

/// A fresh, fully transparent tile.
pub fn blank_tile() -> (t: Raster)
    ensures
        is_tile(t),
        is_clear(t),
{
    Raster::blank(TILE_SIZE, TILE_SIZE)
}

} // verus!
