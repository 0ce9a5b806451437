//! Decoded images as plain bytes: four bytes (red, green, blue, alpha) for
//! each pixel, row after row from the top, each row from the left.
//!
//! Buffers are allocated and copied into one another by the `image` crate.

use image::GenericImage;
use vstd::prelude::*;

verus! {

/// Number of bytes that one pixel takes.
pub const BYTES_PER_PIXEL: usize = 4;

/// An image of `width` by `height` pixels and its bytes.
#[derive(Debug, PartialEq, Eq)]
pub struct Raster {
    width: u32,
    height: u32,
    pixels: Vec<u8>,
}

/// What a [`Raster`] holds, as mathematical values.
pub struct RasterView {
    pub width: nat,
    pub height: nat,
    pub pixels: Seq<u8>,
}

impl RasterView {
    /// The bytes are exactly those of `width * height` pixels, and the
    /// bytes of one row can be counted on this machine, also where the image
    /// has no row.
    pub open spec fn well_formed(self) -> bool {
        &&& 4 * self.width <= usize::MAX
        &&& self.pixels.len() == 4 * self.width * self.height
    }

    /// Whether column `x` of row `y` lies inside the image.
    pub open spec fn contains(self, x: int, y: int) -> bool {
        0 <= x < self.width && 0 <= y < self.height
    }

    /// Where the four bytes of the pixel in column `x` of row `y` start.
    pub open spec fn offset(self, x: int, y: int) -> int {
        4 * (y * self.width + x)
    }

    /// The four bytes of the pixel in column `x` of row `y`.
    pub open spec fn pixel(self, x: int, y: int) -> Seq<u8> {
        self.pixels.subrange(self.offset(x, y), self.offset(x, y) + 4)
    }

    /// The pixels of a well-formed image lie inside its bytes, one behind
    /// the other.
    pub proof fn lemma_offset_in_bounds(self, x: int, y: int)
        requires
            self.well_formed(),
            self.contains(x, y),
        ensures
            0 <= self.offset(x, y),
            self.offset(x, y) + 4 <= self.pixels.len(),
            self.pixel(x, y).len() == 4,
    {
        let w = self.width as int;
        let h = self.height as int;
        assert(y * w + x + 1 <= h * w && 0 <= y * w) by (nonlinear_arith)
            requires
                0 <= x < w,
                0 <= y < h,
        ;
        assert(4 * w * h == 4 * (h * w)) by (nonlinear_arith);
    }
}

/// Two images of one size whose pixels agree hold the same bytes: the
/// pixels of an image say all that it holds.
pub proof fn lemma_pixels_determine_bytes(a: RasterView, b: RasterView)
    requires
        a.well_formed(),
        b.well_formed(),
        a.width == b.width,
        a.height == b.height,
        forall|x: int, y: int| a.contains(x, y) ==> #[trigger] a.pixel(x, y) == b.pixel(x, y),
    ensures
        a == b,
{
    let w = a.width as int;
    let h = a.height as int;
    assert(a.pixels.len() == b.pixels.len());
    assert forall|i: int| 0 <= i < a.pixels.len() implies a.pixels[i] == b.pixels[i] by {
        let at = i / 4;
        let channel = i % 4;
        assert(0 <= at < w * h) by (nonlinear_arith)
            requires
                0 <= i < 4 * w * h,
                at == i / 4,
        ;
        assert(w > 0) by (nonlinear_arith)
            requires
                0 <= at < w * h,
                0 <= w,
        ;
        let x = at % w;
        let y = at / w;
        assert(at == y * w + x && 0 <= x < w && 0 <= y < h) by (nonlinear_arith)
            requires
                0 <= at < w * h,
                w > 0,
                x == at % w,
                y == at / w,
        ;
        a.lemma_offset_in_bounds(x, y);
        b.lemma_offset_in_bounds(x, y);
        assert(a.pixel(x, y)[channel] == a.pixels[i]);
        assert(b.pixel(x, y)[channel] == b.pixels[i]);
    }
    assert(a.pixels =~= b.pixels);
}

impl View for Raster {
    type V = RasterView;

    closed spec fn view(&self) -> RasterView {
        RasterView {
            width: self.width as nat,
            height: self.height as nat,
            pixels: self.pixels@,
        }
    }
}

/// Whether an image of `width` by `height` pixels can be allocated on this
/// machine: the bytes of one row can be counted in `usize`, also where the
/// image has no row, and the bytes of all rows are no more than a buffer
/// may hold, which is `isize::MAX`.
pub open spec fn spec_fits(width: u32, height: u32) -> bool {
    &&& 4 * width <= usize::MAX
    &&& 4 * width * height <= isize::MAX
}

/// A buffer of `width * height` pixels whose bytes are all zero, as
/// `image::ImageBuffer::new` allocates it and `ImageBuffer::into_raw` hands
/// it out. The `image` crate counts the bytes as four times the width, and
/// that times the height, and panics where either product does not fit into
/// `usize`; the allocation of the buffer panics where the bytes are more
/// than `isize::MAX`. `requires` leaves those sizes out.
#[verifier::external_body]
fn zeroed_buffer(width: u32, height: u32) -> (pixels: Vec<u8>)
    requires
        spec_fits(width, height),
    ensures
        pixels@.len() == 4 * width * height,
        forall|i: int| 0 <= i < pixels@.len() ==> pixels@[i] == 0,
{
    image::RgbaImage::new(width, height).into_raw()
}

/// Copies all of `source` into `target` with its top-left corner at column
/// `x` of row `y`, by `image::GenericImage::copy_from` on two
/// `image::ImageBuffer`s made with `ImageBuffer::from_raw` of the two
/// rasters' bytes. The `image` crate refuses the copy, and writes nothing,
/// unless all of `source` then lies inside `target`; where it copies, each
/// pixel under `source` takes the bytes of the pixel of `source` above it and
/// every other pixel keeps its bytes. The `image` crate takes a buffer only
/// where four times its width fits into `usize` and it holds the bytes of
/// all its pixels, and describes the layout of `source` by the same product:
/// for two well-formed rasters, which is what `requires` asks for, none of
/// these calls panics.
#[verifier::external_body]
pub(crate) fn copy_from(target: &mut Raster, source: &Raster, x: u32, y: u32) -> (copied: bool)
    requires
        old(target)@.well_formed(),
        source@.well_formed(),
    ensures
        final(target)@.width == old(target)@.width,
        final(target)@.height == old(target)@.height,
        final(target)@.well_formed(),
        copied == (x + source@.width <= old(target)@.width && y + source@.height <= old(
            target,
        )@.height),
        copied ==> forall|c: int, r: int|
            old(target)@.contains(c, r) ==> #[trigger] final(target)@.pixel(c, r) == (if source@.contains(
                c - x,
                r - y,
            ) {
                source@.pixel(c - x, r - y)
            } else {
                old(target)@.pixel(c, r)
            }),
        !copied ==> final(target)@ == old(target)@,
    no_unwind
{
    let bytes = std::mem::take(&mut target.pixels);
    let mut canvas = image::RgbaImage::from_raw(target.width, target.height, bytes).unwrap();
    let tile = image::ImageBuffer::<image::Rgba<u8>, &[u8]>::from_raw(
        source.width,
        source.height,
        source.pixels.as_slice(),
    ).unwrap();
    let copied = canvas.copy_from(&tile, x, y).is_ok();
    target.pixels = canvas.into_raw();
    copied
}

/// The number of bytes that an image of `width` by `height` pixels takes.
pub fn byte_count(width: u32, height: u32) -> (bytes: u128)
    ensures
        bytes == 4 * width * height,
{
    assert(0 <= width * height <= 0xffff_ffff * 0xffff_ffff) by (nonlinear_arith)
        requires
            0 <= width <= 0xffff_ffff,
            0 <= height <= 0xffff_ffff,
    ;
    assert(4 * width * height == 4 * (width * height)) by (nonlinear_arith);
    let count: u128 = (width as u128) * (height as u128);
    4 * count
}

/// Whether an image of `width` by `height` pixels can be allocated on this
/// machine.
pub fn fits(width: u32, height: u32) -> (fits: bool)
    ensures
        fits == spec_fits(width, height),
{
    let row: u128 = 4 * (width as u128);
    let bytes: u128 = byte_count(width, height);
    row <= usize::MAX as u128 && bytes <= isize::MAX as u128
}

impl Raster {
    /// Every image holds exactly four bytes for each of its pixels, and the
    /// bytes of one of its rows can be counted on this machine.
    #[verifier::type_invariant]
    pub open spec fn well_formed(&self) -> bool {
        self@.well_formed()
    }

    /// The image of `width` by `height` pixels whose bytes are `pixels`;
    /// nothing where `pixels` does not hold exactly four bytes for each
    /// pixel, or where the bytes of one row cannot be counted on this
    /// machine, which an image without rows may be too wide for.
    pub fn from_raw(width: u32, height: u32, pixels: Vec<u8>) -> (raster: Option<Raster>)
        ensures
            raster.is_some() == (4 * width <= usize::MAX && pixels@.len() == 4 * width
                * height),
            raster.is_some() ==> raster.unwrap()@ == (RasterView {
                width: width as nat,
                height: height as nat,
                pixels: pixels@,
            }),
            raster.is_some() ==> raster.unwrap()@.well_formed(),
    {
        let row: u128 = 4 * (width as u128);
        let bytes: u128 = byte_count(width, height);
        if row <= usize::MAX as u128 && pixels.len() as u128 == bytes {
            Some(Raster { width, height, pixels })
        } else {
            None
        }
    }

    /// An image of `width` by `height` pixels, each of them four zero bytes:
    /// transparent black.
    pub fn blank(width: u32, height: u32) -> (raster: Raster)
        requires
            spec_fits(width, height),
        ensures
            raster@.width == width,
            raster@.height == height,
            raster@.well_formed(),
            forall|i: int| 0 <= i < raster@.pixels.len() ==> raster@.pixels[i] == 0,
    {
        Raster { width, height, pixels: zeroed_buffer(width, height) }
    }

    /// The number of pixels in a row.
    pub fn width(&self) -> (width: u32)
        ensures
            width == self@.width,
            self@.well_formed(),
    {
        proof {
            use_type_invariant(self);
        }
        self.width
    }

    /// The number of rows.
    pub fn height(&self) -> (height: u32)
        ensures
            height == self@.height,
            self@.well_formed(),
    {
        proof {
            use_type_invariant(self);
        }
        self.height
    }

    /// The bytes of the image, row after row.
    pub fn as_raw(&self) -> (pixels: &Vec<u8>)
        ensures
            pixels@ == self@.pixels,
            self@.well_formed(),
    {
        proof {
            use_type_invariant(self);
        }
        &self.pixels
    }

    /// The bytes of the image, row after row.
    pub fn into_raw(self) -> (pixels: Vec<u8>)
        ensures
            pixels@ == self@.pixels,
            self@.well_formed(),
    {
        proof {
            use_type_invariant(&self);
        }
        self.pixels
    }

    /// The four bytes of the pixel in column `x` of row `y`; nothing where
    /// the image has no such pixel.
    pub fn get_pixel(&self, x: u32, y: u32) -> (pixel: Option<[u8; 4]>)
        ensures
            pixel.is_some() == self@.contains(x as int, y as int),
            pixel.is_some() ==> pixel.unwrap()@ == self@.pixel(x as int, y as int),
    {
        proof {
            use_type_invariant(self);
        }
        if x >= self.width || y >= self.height {
            return None;
        }
        proof {
            self@.lemma_offset_in_bounds(x as int, y as int);
        }
        let w: usize = self.width as usize;
        let len: usize = self.pixels.len();
        assert(y * w + x + 1 <= self.height * w && 0 <= y * w) by (nonlinear_arith)
            requires
                0 <= x < w,
                0 <= y < self.height,
        ;
        assert(4 * self@.width * self@.height == 4 * (self.height * w)) by (nonlinear_arith)
            requires
                w == self@.width,
                self.height == self@.height,
        ;
        let at: usize = 4 * ((y as usize) * w + (x as usize));
        let pixel: [u8; 4] = [
            self.pixels[at],
            self.pixels[at + 1],
            self.pixels[at + 2],
            self.pixels[at + 3],
        ];
        assert(pixel@ =~= self@.pixel(x as int, y as int));
        Some(pixel)
    }
}

} // verus!
