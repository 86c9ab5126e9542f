//! RGBA rasters, and the image operations of the `image` crate on them.

use vstd::prelude::*;

verus! {

/// A raster as contracts see it: its sides, and its bytes row by row, four
/// (red, green, blue, alpha) to a pixel.
#[verifier::ext_equal]
pub struct RasterView {
    pub width: u32,
    pub height: u32,
    pub pixels: Seq<u8>,
}

impl RasterView {
    /// The number of bytes that a raster of these sides holds.
    pub open spec fn byte_len(width: u32, height: u32) -> int {
        4 * (width * height)
    }

    /// The raster holds exactly the bytes of its pixels.
    pub open spec fn well_sized(self) -> bool {
        self.pixels.len() == Self::byte_len(self.width, self.height)
    }

    /// The opaque white raster of the given sides.
    pub open spec fn white(width: u32, height: u32) -> RasterView {
        RasterView {
            width,
            height,
            pixels: Seq::new(Self::byte_len(width, height) as nat, |i: int| 255u8),
        }
    }

    /// The raster without a single pixel.
    pub open spec fn empty() -> RasterView {
        RasterView { width: 0, height: 0, pixels: Seq::empty() }
    }
}

/// An RGBA raster of fixed sides. It always holds exactly `4 * width * height`
/// bytes.
#[derive(Debug, PartialEq, Eq)]
pub struct Raster {
    width: u32,
    height: u32,
    pixels: Vec<u8>,
}

impl View for Raster {
    type V = RasterView;

    closed spec fn view(&self) -> RasterView {
        RasterView { width: self.width, height: self.height, pixels: self.pixels@ }
    }
}

/// Whether `imageops::resize` can allocate what it needs to bring a raster of
/// the sides `from_width` by `from_height` to `width` by `height`: the result,
/// and, where it resamples, an intermediate raster of `from_width` by `height`
/// pixels of four 32-bit channels.
pub open spec fn resize_fits(from_width: u32, from_height: u32, width: u32, height: u32) -> bool {
    &&& 4 * (width * height) <= isize::MAX
    &&& (from_width == 0 || from_height == 0 || (from_width == width && from_height == height)
        || 16 * (from_width * height) <= isize::MAX)
}

/// The image that `image::load_from_memory` reads out of `bytes`, as an RGBA
/// raster; `None` where it reports an error.
pub uninterp spec fn decoded_image(bytes: Seq<u8>) -> Option<RasterView>;

/// The bytes of the raster `bottom` after `imageops::overlay` has laid `top`
/// over it with `top`'s upper left corner at (`x`, `y`).
pub uninterp spec fn overlaid_pixels(bottom: RasterView, top: RasterView, x: i64, y: i64) -> Seq<u8>;

impl Raster {
    #[verifier::type_invariant]
    spec fn sized(self) -> bool {
        self.pixels@.len() == RasterView::byte_len(self.width, self.height)
    }

    /// A raster over the given bytes, if they are exactly those of `width` by
    /// `height` pixels.
    pub fn from_raw(width: u32, height: u32, pixels: Vec<u8>) -> (raster: Option<Raster>)
        ensures
            raster is Some <==> pixels@.len() == RasterView::byte_len(width, height),
            raster matches Some(r) ==> r@ == (RasterView { width, height, pixels: pixels@ }),
    {
        assert(0 <= width * height <= 0xffff_ffff * 0xffff_ffff) by (nonlinear_arith)
            requires
                0 <= width <= 0xffff_ffff,
                0 <= height <= 0xffff_ffff,
        ;
        let wanted: u128 = 4 * ((width as u128) * (height as u128));
        if pixels.len() as u128 == wanted {
            Some(Raster { width, height, pixels })
        } else {
            None
        }
    }

    /// The raster without a single pixel.
    pub fn empty() -> (raster: Raster)
        ensures
            raster@ == RasterView::empty(),
    {
        Raster { width: 0, height: 0, pixels: Vec::new() }
    }

    /// An opaque white raster: the state of a canvas before the first overlay.
    pub fn white(width: u32, height: u32) -> (raster: Raster)
        requires
            RasterView::byte_len(width, height) <= isize::MAX,
        ensures
            raster@ == RasterView::white(width, height),
    {
        let len: usize = 4 * ((width as usize) * (height as usize));
        let pixels = vec![255u8; len];
        Raster { width, height, pixels }
    }

    /// The number of pixels in a row.
    pub fn width(&self) -> (width: u32)
        ensures
            width == self@.width,
    {
        self.width
    }

    /// The number of rows.
    pub fn height(&self) -> (height: u32)
        ensures
            height == self@.height,
    {
        self.height
    }

    /// The bytes of the raster, row by row.
    pub fn as_raw(&self) -> (pixels: &Vec<u8>)
        ensures
            pixels@ == self@.pixels,
            self@.well_sized(),
    {
        proof {
            use_type_invariant(self);
        }
        &self.pixels
    }

    /// Gives up the raster for its bytes.
    pub fn into_raw(self) -> (pixels: Vec<u8>)
        ensures
            pixels@ == self@.pixels,
            self@.well_sized(),
    {
        proof {
            use_type_invariant(&self);
        }
        self.pixels
    }

    /// An independent copy of the raster as it is now.
    pub fn snapshot(&self) -> (copy: Raster)
        ensures
            copy@ == self@,
    {
        proof {
            use_type_invariant(self);
        }
        let pixels = self.pixels.clone();
        Raster { width: self.width, height: self.height, pixels }
    }

    /// Whether the raster can be resized to `width` by `height`: see
    /// [`resize_fits`].
    pub fn can_resize_to(&self, width: u32, height: u32) -> (fits: bool)
        ensures
            fits == resize_fits(self@.width, self@.height, width, height),
    {
        let limit: u128 = isize::MAX as u128;
        assert(0 <= width * height <= 0xffff_ffff * 0xffff_ffff && 0 <= self.width * height
            <= 0xffff_ffff * 0xffff_ffff) by (nonlinear_arith)
            requires
                0 <= width <= 0xffff_ffff,
                0 <= height <= 0xffff_ffff,
                0 <= self.width <= 0xffff_ffff,
        ;
        let result: u128 = 4 * ((width as u128) * (height as u128));
        let between: u128 = 16 * ((self.width as u128) * (height as u128));
        result <= limit && (self.width == 0 || self.height == 0 || (self.width == width
            && self.height == height) || between <= limit)
    }

    /// Whether the raster is without pixels on both sides.
    pub fn is_empty(&self) -> (empty: bool)
        ensures
            empty == (self@.width == 0 && self@.height == 0),
    {
        self.width == 0 && self.height == 0
    }
}

/// Reads an image out of `bytes` with `image::load_from_memory`, which tells
/// the format from the bytes themselves, and converts it to RGBA with the
/// `From<DynamicImage>` of `RgbaImage`, whose buffer holds four bytes to a
/// pixel and no more. The contract names the outcome [`decoded_image`]: the
/// same bytes always give the same raster or failure.
#[verifier::external_body]
pub(crate) fn decode_image(bytes: &[u8]) -> (decoded: Result<Raster, image::ImageError>)
    ensures
        match decoded {
            Ok(raster) => decoded_image(bytes@) == Some(raster@),
            Err(_) => decoded_image(bytes@) is None,
        },
{
    let rgba: image::RgbaImage = image::load_from_memory(bytes)?.into();
    Ok(Raster { width: rgba.width(), height: rgba.height(), pixels: rgba.into_raw() })
}

/// Resamples `source` to `width` by `height` with `imageops::resize` and its
/// Gaussian filter. The contract claims the sides of the result, and that a
/// source which already has those sides is copied pixel for pixel. Of the
/// resampled pixels it claims nothing: the filter rests on floating-point
/// functions whose last digit the platform decides.
#[verifier::external_body]
pub(crate) fn resize_gaussian(source: &Raster, width: u32, height: u32) -> (resized: Raster)
    requires
        resize_fits(source@.width, source@.height, width, height),
    ensures
        resized@.width == width,
        resized@.height == height,
        source@.width == width && source@.height == height ==> resized@.pixels == source@.pixels,
{
    let view = image::ImageBuffer::<image::Rgba<u8>, &[u8]>::from_raw(
        source.width,
        source.height,
        source.pixels.as_slice(),
    ).unwrap();
    let out = image::imageops::resize(&view, width, height, image::imageops::FilterType::Gaussian);
    Raster { width: out.width(), height: out.height(), pixels: out.into_raw() }
}

/// Lays `top` over `canvas` with `imageops::overlay`: source-over alpha
/// blending, pixel by pixel, of the part of `top` that falls inside the canvas.
/// The contract claims that the canvas keeps its sides and names its new bytes
/// [`overlaid_pixels`].
#[verifier::external_body]
pub(crate) fn overlay(canvas: &mut Raster, top: &Raster, x: i64, y: i64)
    ensures
        final(canvas)@.width == old(canvas)@.width,
        final(canvas)@.height == old(canvas)@.height,
        final(canvas)@.pixels == overlaid_pixels(old(canvas)@, top@, x, y),
{
    let (width, height) = (canvas.width, canvas.height);
    let mut bottom = image::ImageBuffer::<image::Rgba<u8>, &mut [u8]>::from_raw(
        width,
        height,
        canvas.pixels.as_mut_slice(),
    ).unwrap();
    let top = image::ImageBuffer::<image::Rgba<u8>, &[u8]>::from_raw(
        top.width,
        top.height,
        top.pixels.as_slice(),
    ).unwrap();
    image::imageops::overlay(&mut bottom, &top, x, y);
}

} // verus!
