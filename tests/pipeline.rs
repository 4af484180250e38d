use imageproc::image;
use lane_detect::image::{Frame, GrayImage, PipelineError};
use lane_detect::lanes::Segment;
use lane_detect::pipeline::detect_lanes;

fn to_outside(g: &GrayImage) -> image::GrayImage {
    image::GrayImage::from_raw(g.width, g.height, g.pixels.clone()).unwrap()
}

fn smooth(g: &GrayImage) -> GrayImage {
    let out = imageproc::filter::gaussian_blur_f32(&to_outside(g), 2.0);
    GrayImage { width: g.width, height: g.height, pixels: out.into_raw() }
}

fn find_edges(g: &GrayImage) -> GrayImage {
    let out = imageproc::edges::canny(&to_outside(g), 50.0, 150.0);
    GrayImage { width: g.width, height: g.height, pixels: out.into_raw() }
}

fn zero_segment() -> Segment {
    Segment { x1_num: 0, y1: 0, x2_num: 0, y2: 0, den: 1 }
}

fn put(data: &mut [u8], width: usize, x: i64, y: i64, v: u8) {
    if x >= 0 && (x as usize) < width && y >= 0 {
        let i = (y as usize * width + x as usize) * 3;
        if i + 2 < data.len() {
            data[i] = v;
            data[i + 1] = v;
            data[i + 2] = v;
        }
    }
}

/// Two bright stripes: a left one from (100, 240) up to (306, 96) and a
/// right one from (540, 240) up to (334, 96), each 5 pixels wide.
fn two_stripes() -> Frame {
    let (h, w) = (480usize, 640usize);
    let mut data = vec![0u8; h * w * 3];
    for y in 0..h as i64 {
        let dy = (240 - y) as f64;
        let xl = (100.0 + dy / 0.7).round() as i64;
        let xr = (540.0 - dy / 0.7).round() as i64;
        for t in -2..=2 {
            put(&mut data, w, xl + t, y, 255);
            put(&mut data, w, xr + t, y, 255);
        }
    }
    Frame::new(h, w, 3, data).unwrap()
}

#[test]
fn two_stripes_give_left_and_right_lanes() {
    let frame = two_stripes();
    let segs = detect_lanes(&frame, smooth, find_edges).unwrap();
    assert_eq!(segs.len(), 2);
    let (l, r) = (segs[0], segs[1]);
    for s in [l, r] {
        assert_eq!(s.y1, 240);
        assert_eq!(s.y2, 96);
    }
    let x1 = |s: Segment| s.x1_num as f64 / s.den as f64;
    let x2 = |s: Segment| s.x2_num as f64 / s.den as f64;
    let slope = |s: Segment| (s.y2 - s.y1) as f64 / (x2(s) - x1(s));
    assert!(slope(l) < 0.0);
    assert!(slope(r) > 0.0);
    assert!((x1(l) - 100.0).abs() <= 15.0, "{:?}", l);
    assert!((x2(l) - 306.0).abs() <= 15.0, "{:?}", l);
    assert!((x1(r) - 540.0).abs() <= 15.0, "{:?}", r);
    assert!((x2(r) - 334.0).abs() <= 15.0, "{:?}", r);
}

#[test]
fn black_frame_gives_fallback() {
    let frame = Frame::new(480, 640, 3, vec![0u8; 480 * 640 * 3]).unwrap();
    let segs = detect_lanes(&frame, smooth, find_edges).unwrap();
    assert_eq!(segs, vec![zero_segment(), zero_segment()]);
}

#[test]
fn same_frame_twice_gives_same_lanes() {
    let frame = two_stripes();
    let a = detect_lanes(&frame, smooth, find_edges).unwrap();
    let b = detect_lanes(&frame, smooth, find_edges).unwrap();
    assert_eq!(a, b);
}

#[test]
fn stage_of_another_size_is_refused() {
    let frame = Frame::new(4, 4, 3, vec![9u8; 48]).unwrap();
    let shrink = |g: &GrayImage| GrayImage { width: 1, height: 1, pixels: vec![g.pixels[0]] };
    assert_eq!(detect_lanes(&frame, shrink, find_edges), Err(PipelineError::StageShape));
}

#[test]
fn blank_image_has_no_edges() {
    let blank = GrayImage::new(64, 48, vec![0u8; 64 * 48]).unwrap();
    let edges = find_edges(&blank);
    assert_eq!(edges.pixels.len(), 64 * 48);
    assert!(edges.pixels.iter().all(|&p| p == 0));
}

#[test]
fn tall_thin_frame_is_accepted() {
    let frame = Frame::new(20000, 2, 3, vec![0u8; 20000 * 2 * 3]).unwrap();
    let segs = detect_lanes(&frame, smooth, find_edges).unwrap();
    assert_eq!(segs, vec![zero_segment(), zero_segment()]);
}
