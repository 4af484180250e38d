use vstd::prelude::*;
use crate::image::{lemma_pixel_count, Frame, GrayImage};

verus! {

/// Luma of one pixel in thousandths: 0.299 R + 0.587 G + 0.114 B, truncated.
pub open spec fn luma(b: u8, g: u8, r: u8) -> u8 {
    ((299 * r + 587 * g + 114 * b) / 1000) as u8
}

/// The intensity of every pixel of a blue-green-red buffer.
pub open spec fn gray_of(data: Seq<u8>) -> Seq<u8> {
    Seq::new(data.len() / 3, |i: int| luma(data[3 * i], data[3 * i + 1], data[3 * i + 2]))
}

/// Reduces a frame to one intensity per pixel with the luma weights.
pub fn bgr_to_gray(frame: &Frame) -> (out: GrayImage)
    requires
        frame.wf(),
    ensures
        out.wf(),
        out.width == frame.width,
        out.height == frame.height,
        out.pixels@ == gray_of(frame.data@),
{
    proof {
        lemma_pixel_count(frame.width as int, frame.height as int);
    }
    let n = frame.height as usize * frame.width as usize;
    let len = frame.data.len();
    let mut pixels: Vec<u8> = Vec::with_capacity(n);
    let mut i: usize = 0;
    while i < n
        invariant
            frame.wf(),
            n == frame.height * frame.width,
            len == frame.data@.len(),
            3 * n == len,
            i <= n,
            pixels@.len() == i,
            forall|j: int| 0 <= j < i ==> pixels@[j] == gray_of(frame.data@)[j],
        decreases n - i,
    {
        let b = frame.data[3 * i];
        let g = frame.data[3 * i + 1];
        let r = frame.data[3 * i + 2];
        let v = (299 * r as u32 + 587 * g as u32 + 114 * b as u32) / 1000;
        pixels.push(v as u8);
        i += 1;
    }
    assert(pixels@ =~= gray_of(frame.data@));
    GrayImage { width: frame.width, height: frame.height, pixels }
}

/// A pixel whose three channels hold the same value `v` has intensity `v`.
pub proof fn lemma_luma_uniform(v: u8)
    ensures
        luma(v, v, v) == v,
{
}

/// On a frame whose every channel of every pixel holds `v`, the colour
/// reducer gives intensity `v` everywhere.
pub proof fn lemma_uniform_frame_gray(data: Seq<u8>, v: u8)
    requires
        forall|i: int| 0 <= i < data.len() ==> data[i] == v,
    ensures
        forall|i: int| 0 <= i < gray_of(data).len() ==> gray_of(data)[i] == v,
{
    assert forall|i: int| 0 <= i < gray_of(data).len() implies gray_of(data)[i] == v by {
        assert(3 * i + 2 < data.len());
        lemma_luma_uniform(v);
    }
}

} // verus!
