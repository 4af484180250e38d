use vstd::prelude::*;

verus! {

/// Largest width or height that an accepted image can have: with the
/// other side at least 1, `w * w + h * h` stays within `u32::MAX`.
pub const MAX_DIM: u32 = 65535;

/// Bound on the squared diagonal of an accepted image: the Hough vote
/// computes `w * w + h * h` in 32 bits.
pub const MAX_DIAGONAL_SQUARED: u64 = 0xFFFF_FFFF;

/// Why a frame was not accepted.
#[derive(Debug, Clone, Copy, PartialEq, Eq, Structural)]
pub enum PipelineError {
    /// The height or width is zero, the channel count is not 3, or the
    /// buffer length is not height * width * 3.
    InvalidDimensions,
    /// The squared diagonal, `height * height + width * width`, is above
    /// `MAX_DIAGONAL_SQUARED`, the most that the line vote can take.
    TooLarge,
    /// The smoothing or edge stage returned an image of another size, or
    /// one whose buffer does not match its size.
    StageShape,
}

/// A colour frame: row-major, `height * width` pixels of three bytes each,
/// in blue-green-red order.
pub struct Frame {
    pub height: u32,
    pub width: u32,
    pub data: Vec<u8>,
}

/// A single-channel intensity image, row-major, one byte per pixel.
pub struct GrayImage {
    pub width: u32,
    pub height: u32,
    pub pixels: Vec<u8>,
}

pub open spec fn diagonal_fits(width: int, height: int) -> bool {
    width * width + height * height <= MAX_DIAGONAL_SQUARED
}

pub open spec fn dims_ok(width: int, height: int) -> bool {
    1 <= width && 1 <= height && diagonal_fits(width, height)
}

/// Each side of accepted dimensions is at most `MAX_DIM`, and the pixel
/// count is at most 2^31.
pub proof fn lemma_pixel_count(width: int, height: int)
    requires
        dims_ok(width, height),
    ensures
        width <= MAX_DIM,
        height <= MAX_DIM,
        1 <= height * width <= 0x8000_0000,
{
    assert(width <= MAX_DIM && height <= MAX_DIM) by (nonlinear_arith)
        requires
            1 <= width,
            1 <= height,
            width * width + height * height <= 0xFFFF_FFFF,
    ;
    assert(1 <= height * width <= 0x8000_0000) by (nonlinear_arith)
        requires
            1 <= width,
            1 <= height,
            width * width + height * height <= 0xFFFF_FFFF,
    ;
}

/// Tells whether the squared diagonal of a `width` by `height` image fits
/// the line vote.
pub fn diagonal_fits_exec(width: usize, height: usize) -> (r: bool)
    ensures
        r == diagonal_fits(width as int, height as int),
{
    if width > MAX_DIM as usize || height > MAX_DIM as usize {
        proof {
            assert(!diagonal_fits(width as int, height as int)) by (nonlinear_arith)
                requires
                    width > 65535 || height > 65535,
            ;
        }
        return false;
    }
    let w = width as u64;
    let h = height as u64;
    proof {
        assert(w * w <= 65535 * 65535 && h * h <= 65535 * 65535) by (nonlinear_arith)
            requires
                w <= 65535,
                h <= 65535,
        ;
    }
    w * w + h * h <= MAX_DIAGONAL_SQUARED
}

impl Frame {
    pub open spec fn wf(&self) -> bool {
        &&& dims_ok(self.width as int, self.height as int)
        &&& self.data@.len() == 3 * (self.height * self.width)
    }

    pub open spec fn num_pixels(&self) -> int {
        self.height * self.width
    }

    /// Checks the shape of a frame buffer and takes ownership of it.
    pub fn new(height: usize, width: usize, channels: usize, data: Vec<u8>) -> (r: Result<
        Frame,
        PipelineError,
    >)
        ensures
            (height == 0 || width == 0 || channels != 3) ==> r == Err::<Frame, PipelineError>(
                PipelineError::InvalidDimensions,
            ),
            (height != 0 && width != 0 && channels == 3 && !diagonal_fits(
                width as int,
                height as int,
            )) ==> r == Err::<Frame, PipelineError>(PipelineError::TooLarge),
            (dims_ok(width as int, height as int) && channels == 3 && data@.len() != 3 * (height
                * width)) ==> r == Err::<Frame, PipelineError>(PipelineError::InvalidDimensions),
            (dims_ok(width as int, height as int) && channels == 3 && data@.len() == 3 * (height
                * width)) ==> (r matches Ok(f) && f.wf() && f.height == height && f.width == width
                && f.data@ == data@),
    {
        if height == 0 || width == 0 || channels != 3 {
            return Err(PipelineError::InvalidDimensions);
        }
        if !diagonal_fits_exec(width, height) {
            return Err(PipelineError::TooLarge);
        }
        proof {
            lemma_pixel_count(width as int, height as int);
        }
        let count = height * width;
        let len = data.len();
        match count.checked_mul(3) {
            Some(n) => {
                if len != n {
                    return Err(PipelineError::InvalidDimensions);
                }
            },
            None => {
                return Err(PipelineError::InvalidDimensions);
            },
        }
        Ok(Frame { height: height as u32, width: width as u32, data })
    }
}

impl GrayImage {
    pub open spec fn wf(&self) -> bool {
        &&& dims_ok(self.width as int, self.height as int)
        &&& self.pixels@.len() == self.height * self.width
    }

    /// The intensity at column `x`, row `y`.
    pub open spec fn at(&self, x: int, y: int) -> u8 {
        self.pixels@[y * self.width + x]
    }

    pub open spec fn same_shape(&self, other: &GrayImage) -> bool {
        self.width == other.width && self.height == other.height
    }

    /// Checks the shape of an intensity buffer and takes ownership of it.
    pub fn new(width: u32, height: u32, pixels: Vec<u8>) -> (r: Option<GrayImage>)
        ensures
            r is Some <==> (dims_ok(width as int, height as int) && pixels@.len() == height
                * width),
            r matches Some(g) ==> g.width == width && g.height == height && g.pixels@ == pixels@,
    {
        let img = GrayImage { width, height, pixels };
        if img.is_well_formed() {
            Some(img)
        } else {
            None
        }
    }

    /// Tells whether the dimensions are accepted and match the buffer.
    pub fn is_well_formed(&self) -> (r: bool)
        ensures
            r == self.wf(),
    {
        if self.width < 1 || self.height < 1 || !diagonal_fits_exec(
            self.width as usize,
            self.height as usize,
        ) {
            return false;
        }
        proof {
            lemma_pixel_count(self.width as int, self.height as int);
        }
        self.pixels.len() == self.height as usize * self.width as usize
    }
}

} // verus!
