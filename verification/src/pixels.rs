//! Decoded rasters: RGBA pixels with 8 bits per channel, stored row by row.

use vstd::prelude::*;

verus! {

/// One pixel sample: red, green, blue and alpha.
pub type Rgba = (u8, u8, u8, u8);

/// The mathematical model of a pixel matrix: its dimensions and its channel
/// samples, four per pixel, row by row from the top left corner.
pub struct PixelGrid {
    pub width: nat,
    pub height: nat,
    pub samples: Seq<u8>,
}

impl PixelGrid {
    /// The samples cover the dimensions exactly, and the dimensions are those
    /// of a matrix that can exist in memory.
    pub open spec fn wf(self) -> bool {
        &&& self.width <= u32::MAX
        &&& self.height <= u32::MAX
        &&& self.samples.len() == 4 * self.width * self.height
    }

    /// Position of the red sample of the pixel in column `x` of row `y`.
    pub open spec fn offset(self, x: int, y: int) -> int {
        4 * (y * self.width + x)
    }

    /// The pixel in column `x` of row `y`.
    pub open spec fn pixel(self, x: int, y: int) -> Rgba {
        let at = self.offset(x, y);
        (self.samples[at], self.samples[at + 1], self.samples[at + 2], self.samples[at + 3])
    }

    /// This grid after Gaussian resampling to `nwidth` by `nheight`.
    pub open spec fn resampled(self, nwidth: u32, nheight: u32) -> PixelGrid {
        PixelGrid {
            width: nwidth as nat,
            height: nheight as nat,
            samples: gaussian_resample(
                self.width as u32,
                self.height as u32,
                self.samples,
                nwidth,
                nheight,
            ),
        }
    }
}

/// Every pixel of a well-formed grid lies inside its sample sequence.
pub proof fn lemma_offset_in_bounds(grid: PixelGrid, x: int, y: int)
    requires
        grid.wf(),
        0 <= x < grid.width,
        0 <= y < grid.height,
    ensures
        0 <= y * grid.width,
        0 <= grid.offset(x, y),
        grid.offset(x, y) + 4 <= grid.samples.len(),
{
    let w: int = grid.width as int;
    let h: int = grid.height as int;
    assert(0 <= y * w && y * w + w <= h * w) by (nonlinear_arith)
        requires
            0 <= y < h,
            0 <= w,
    ;
    assert(4 * (h * w) == 4 * w * h) by (nonlinear_arith);
}

/// The samples that Gaussian resampling of a `width` by `height` RGBA raster
/// yields at the dimensions `nwidth` by `nheight`.
pub uninterp spec fn gaussian_resample(
    width: u32,
    height: u32,
    samples: Seq<u8>,
    nwidth: u32,
    nheight: u32,
) -> Seq<u8>;

/// Whether the buffers that resampling allocates can exist: the intermediate
/// one holds four 32-bit values for each pixel of `width` by `nheight`, the
/// final one four bytes for each pixel of `nwidth` by `nheight`.
pub open spec fn resample_fits(width: nat, nwidth: nat, nheight: nat) -> bool {
    &&& 16 * width * nheight <= isize::MAX
    &&& 4 * nwidth * nheight <= isize::MAX
}

/// Decides `resample_fits` at run time.
pub fn can_resample(width: u32, nwidth: u32, nheight: u32) -> (ok: bool)
    ensures
        ok == resample_fits(width as nat, nwidth as nat, nheight as nat),
{
    assert(width * nheight <= 0xffff_ffff * 0xffff_ffff && nwidth * nheight <= 0xffff_ffff
        * 0xffff_ffff) by (nonlinear_arith)
        requires
            width <= 0xffff_ffff,
            nwidth <= 0xffff_ffff,
            nheight <= 0xffff_ffff,
    ;
    assert(16 * (width * nheight) == 16 * width * nheight && 4 * (nwidth * nheight) == 4 * nwidth
        * nheight) by (nonlinear_arith);
    let limit: u128 = isize::MAX as u128;
    let scratch: u128 = 16 * (width as u128 * nheight as u128);
    let result: u128 = 4 * (nwidth as u128 * nheight as u128);
    scratch <= limit && result <= limit
}

/// Calls `image::imageops::resize` with `FilterType::Gaussian` on the samples
/// read as an RGBA image of `width` by `height`, and hands back the raw
/// samples of what it returns. The contract claims that the result is a
/// function of the arguments, named `gaussian_resample`, and that it holds
/// four samples for each pixel of the requested dimensions. The bounds keep
/// out the sizes for which the crate's buffer allocations panic.
#[verifier::external_body]
fn resize_gaussian(width: u32, height: u32, samples: &Vec<u8>, nwidth: u32, nheight: u32) -> (out:
    Vec<u8>)
    requires
        samples@.len() == 4 * width * height,
        resample_fits(width as nat, nwidth as nat, nheight as nat),
    ensures
        out@ == gaussian_resample(width, height, samples@, nwidth, nheight),
        out@.len() == 4 * nwidth * nheight,
{
    let source = image::ImageBuffer::<image::Rgba<u8>, &[u8]>::from_raw(
        width,
        height,
        samples.as_slice(),
    ).unwrap();
    image::imageops::resize(&source, nwidth, nheight, image::imageops::FilterType::Gaussian)
        .into_raw()
}

/// A decoded raster image. The number of samples always matches the dimensions.
#[derive(Debug)]
pub struct PixelMatrix {
    width: u32,
    height: u32,
    samples: Vec<u8>,
}

impl View for PixelMatrix {
    type V = PixelGrid;

    closed spec fn view(&self) -> PixelGrid {
        PixelGrid {
            width: self.width as nat,
            height: self.height as nat,
            samples: self.samples@,
        }
    }
}

impl PixelMatrix {
    #[verifier::type_invariant]
    spec fn sized(self) -> bool {
        self.samples@.len() == 4 * self.width * self.height
    }

    /// Builds a matrix from its dimensions and raw samples. The samples are
    /// accepted exactly when there are four of them for each pixel.
    pub fn new(width: u32, height: u32, samples: Vec<u8>) -> (m: Option<PixelMatrix>)
        ensures
            m is Some <==> samples@.len() == 4 * width * height,
            m matches Some(p) ==> p@ == (PixelGrid {
                width: width as nat,
                height: height as nat,
                samples: samples@,
            }),
    {
        assert(width * height <= 0xffff_ffff * 0xffff_ffff) by (nonlinear_arith)
            requires
                width <= 0xffff_ffff,
                height <= 0xffff_ffff,
        ;
        assert(4 * (width * height) == 4 * width * height) by (nonlinear_arith);
        let expected: u128 = 4 * (width as u128 * height as u128);
        if samples.len() as u128 == expected {
            Some(PixelMatrix { width, height, samples })
        } else {
            None
        }
    }

    /// Number of columns.
    pub fn width(&self) -> (w: u32)
        ensures
            w == self@.width,
            self@.wf(),
    {
        proof {
            use_type_invariant(self);
            self.lemma_view_wf();
        }
        self.width
    }

    /// Number of rows.
    pub fn height(&self) -> (h: u32)
        ensures
            h == self@.height,
            self@.wf(),
    {
        proof {
            use_type_invariant(self);
            self.lemma_view_wf();
        }
        self.height
    }

    /// The raw samples, row by row.
    pub fn samples(&self) -> (s: &Vec<u8>)
        ensures
            s@ == self@.samples,
    {
        &self.samples
    }

    /// The pixel in column `x` of row `y`.
    pub fn get_pixel(&self, x: u32, y: u32) -> (p: Rgba)
        requires
            x < self@.width,
            y < self@.height,
        ensures
            p == self@.pixel(x as int, y as int),
    {
        proof {
            use_type_invariant(self);
            self.lemma_view_wf();
            lemma_offset_in_bounds(self@, x as int, y as int);
        }
        let len: usize = self.samples.len();
        assert(4 * (y * self.width + x) + 4 <= len);
        let at: usize = 4 * (y as usize * self.width as usize + x as usize);
        (self.samples[at], self.samples[at + 1], self.samples[at + 2], self.samples[at + 3])
    }

    /// This matrix resampled with a Gaussian filter to exactly `nwidth`
    /// columns and `nheight` rows.
    pub fn resample(&self, nwidth: u32, nheight: u32) -> (out: PixelMatrix)
        requires
            resample_fits(self@.width, nwidth as nat, nheight as nat),
        ensures
            out@ == self@.resampled(nwidth, nheight),
    {
        proof {
            use_type_invariant(self);
        }
        let samples: Vec<u8> = resize_gaussian(
            self.width,
            self.height,
            &self.samples,
            nwidth,
            nheight,
        );
        PixelMatrix { width: nwidth, height: nheight, samples }
    }

    proof fn lemma_view_wf(&self)
        requires
            self.sized(),
        ensures
            self@.wf(),
    {
    }
}

} // verus!
