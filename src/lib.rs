//! Single-frame lane-line detection: colour reduction, region masking and
//! lane-line estimation over a Hough line vote, with their contracts.
pub mod color;
pub mod image;
pub mod lanes;
pub mod pipeline;
pub mod roi;
pub mod trig;
