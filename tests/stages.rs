use lane_detect::color::bgr_to_gray;
use lane_detect::image::{Frame, GrayImage, PipelineError};
use lane_detect::lanes::{estimate_lanes, hough_transform, PolarLine, Segment};
use lane_detect::roi::{apply_roi, is_point_in_polygon, roi_vertices};
use lane_detect::trig::sin_cos_deg;

#[test]
fn frame_shape_is_checked() {
    assert_eq!(Frame::new(0, 4, 3, vec![]).err(), Some(PipelineError::InvalidDimensions));
    assert_eq!(Frame::new(4, 0, 3, vec![]).err(), Some(PipelineError::InvalidDimensions));
    assert_eq!(Frame::new(2, 2, 4, vec![0; 16]).err(), Some(PipelineError::InvalidDimensions));
    assert_eq!(Frame::new(2, 2, 3, vec![0; 11]).err(), Some(PipelineError::InvalidDimensions));
    assert_eq!(Frame::new(65536, 1, 3, vec![]).err(), Some(PipelineError::TooLarge));
    assert_eq!(Frame::new(46341, 46341, 3, vec![]).err(), Some(PipelineError::TooLarge));
    assert_eq!(Frame::new(46340, 46340, 3, vec![]).err(), Some(PipelineError::InvalidDimensions));
    let tall = Frame::new(16385, 1, 3, vec![0; 16385 * 3]).unwrap();
    assert_eq!((tall.height, tall.width), (16385, 1));
    let f = Frame::new(2, 3, 3, vec![0; 18]).unwrap();
    assert_eq!((f.height, f.width), (2, 3));
}

#[test]
fn gray_image_shape_is_checked() {
    assert!(GrayImage::new(2, 2, vec![0; 3]).is_none());
    assert!(GrayImage::new(0, 2, vec![]).is_none());
    assert!(GrayImage::new(2, 2, vec![0; 4]).is_some());
}

#[test]
fn uniform_frame_keeps_its_value() {
    for v in [0u8, 1, 77, 128, 254, 255] {
        let f = Frame::new(3, 5, 3, vec![v; 45]).unwrap();
        let g = bgr_to_gray(&f);
        assert_eq!((g.width, g.height), (5, 3));
        assert!(g.pixels.iter().all(|&p| p == v));
    }
}

#[test]
fn luma_weights_follow_channel_order() {
    // blue, green, red
    let f = Frame::new(1, 3, 3, vec![255, 0, 0, 0, 255, 0, 0, 0, 255]).unwrap();
    let g = bgr_to_gray(&f);
    assert_eq!(g.pixels, vec![29, 149, 76]);
}

#[test]
fn roi_corners() {
    assert_eq!(roi_vertices(640, 480), [(0, 240), (640, 240), (384, 96), (256, 96)]);
}

#[test]
fn point_in_roi() {
    let v = roi_vertices(640, 480);
    assert!(is_point_in_polygon((320, 168), &v));
    assert!(is_point_in_polygon((256, 96), &v));
    assert!(is_point_in_polygon((384, 96), &v));
    assert!(is_point_in_polygon((0, 240), &v));
    assert!(is_point_in_polygon((640, 240), &v));
    assert!(!is_point_in_polygon((255, 96), &v));
    assert!(!is_point_in_polygon((385, 96), &v));
    assert!(!is_point_in_polygon((320, 95), &v));
    assert!(!is_point_in_polygon((320, 241), &v));
    // left edge at y = 168 runs through x = 128
    assert!(is_point_in_polygon((128, 168), &v));
    assert!(!is_point_in_polygon((127, 168), &v));
}

#[test]
fn flat_edge_matches_nothing() {
    let v = [(0, 5), (10, 5), (6, 5), (4, 5)];
    assert!(!is_point_in_polygon((5, 5), &v));
}

#[test]
fn mask_zeroes_outside_rows() {
    let (w, h) = (20u32, 10u32);
    let img = GrayImage::new(w, h, vec![200; 200]).unwrap();
    let m = apply_roi(&img);
    assert_eq!((m.width, m.height), (w, h));
    for y in 0..h {
        for x in 0..w {
            let p = m.pixels[(y * w + x) as usize];
            if y < 2 || y > 5 {
                assert_eq!(p, 0);
            }
        }
    }
    // centre at mid-region height (row 3)
    assert_eq!(m.pixels[(3 * w + 10) as usize], 200);
}

#[test]
fn trig_table_values() {
    assert_eq!(sin_cos_deg(0), (0, 10000));
    assert_eq!(sin_cos_deg(30), (5000, 8660));
    assert_eq!(sin_cos_deg(90), (10000, 0));
    assert_eq!(sin_cos_deg(135), (7071, -7071));
}

#[test]
fn no_lines_give_fallback() {
    let zero = Segment { x1_num: 0, y1: 0, x2_num: 0, y2: 0, den: 1 };
    assert_eq!(estimate_lanes(&vec![], 480), vec![zero, zero]);
}

#[test]
fn blank_edges_give_fallback() {
    let zero = Segment { x1_num: 0, y1: 0, x2_num: 0, y2: 0, den: 1 };
    let blank = GrayImage::new(64, 48, vec![0u8; 64 * 48]).unwrap();
    assert_eq!(hough_transform(&blank), vec![zero, zero]);
}

#[test]
fn one_left_line() {
    // angle 45: x + y = r * sqrt 2; r = 300 gives x + y = 424.26
    let segs = estimate_lanes(&vec![PolarLine { r: 300, angle_in_degrees: 45 }], 480);
    // bottom row 240: (3000000 - 240 * 7071) / 7071 = 184.26
    // top row 96: (3000000 - 96 * 7071) / 7071 = 328.27
    assert_eq!(segs, vec![Segment { x1_num: 1302960, y1: 240, x2_num: 2321184, y2: 96, den: 7071 }]);
}

#[test]
fn left_and_right_lines_are_averaged() {
    let lines = vec![
        PolarLine { r: 300, angle_in_degrees: 45 },
        PolarLine { r: 310, angle_in_degrees: 45 },
        PolarLine { r: -100, angle_in_degrees: 135 },
    ];
    let segs = estimate_lanes(&lines, 480);
    assert_eq!(segs.len(), 2);
    // left: 14142 x + 14142 y = 6100000
    assert_eq!(segs[0], Segment { x1_num: 2705920, y1: 240, x2_num: 4742368, y2: 96, den: 14142 });
    // right: -7071 x + 7071 y = -1000000, so x = y + 141.42
    assert_eq!(segs[1], Segment { x1_num: 2697040, y1: 240, x2_num: 1678816, y2: 96, den: 7071 });
}

#[test]
fn near_horizontal_and_vertical_lines_are_dropped() {
    let lines = vec![
        PolarLine { r: 200, angle_in_degrees: 90 },
        PolarLine { r: 200, angle_in_degrees: 80 },
        PolarLine { r: 200, angle_in_degrees: 0 },
    ];
    assert_eq!(estimate_lanes(&lines, 480), vec![]);
}

#[test]
fn negative_x_stays_exact() {
    // angle 45, r = 10: x = (100000 - 240 * 7071) / 7071 = -225.86
    let segs = estimate_lanes(&vec![PolarLine { r: 10, angle_in_degrees: 45 }], 480);
    assert_eq!((segs[0].x1_num, segs[0].den), (-1597040, 7071));
}

#[test]
fn steep_right_line_keeps_positive_slope() {
    // angle 179, r = -100, 10 rows: -9998 x + 175 y = -1000000
    let segs = estimate_lanes(&vec![PolarLine { r: -100, angle_in_degrees: 179 }], 10);
    assert_eq!(segs, vec![Segment { x1_num: 1000875, y1: 5, x2_num: 1000350, y2: 2, den: 9998 }]);
    let s = segs[0];
    assert!(s.x2_num < s.x1_num && s.y2 < s.y1);
}

#[test]
fn single_line_endpoints_lie_on_it() {
    // angle 30, r = 300: 8660 x + 5000 y = 3000000
    let segs = estimate_lanes(&vec![PolarLine { r: 300, angle_in_degrees: 30 }], 480);
    let s = segs[0];
    assert_eq!(s, Segment { x1_num: 1800000, y1: 240, x2_num: 2520000, y2: 96, den: 8660 });
    assert_eq!(8660 * s.x1_num + 5000 * s.y1 * s.den, 3000000 * s.den);
    assert_eq!(8660 * s.x2_num + 5000 * s.y2 * s.den, 3000000 * s.den);
}

#[test]
fn diagonal_edge_line_is_a_left_lane() {
    let (w, h) = (200u32, 200u32);
    let mut pixels = vec![0u8; (w * h) as usize];
    for x in 1..w {
        let y = 200 - x;
        pixels[(y * w + x) as usize] = 255;
    }
    let edges = GrayImage::new(w, h, pixels).unwrap();
    let segs = hough_transform(&edges);
    assert_eq!(segs.len(), 1, "{:?}", segs);
    let s = segs[0];
    assert_eq!((s.y1, s.y2), (100, 40));
    assert!((s.x1_num as f64 / s.den as f64 - 100.0).abs() <= 3.0, "{:?}", s);
    assert!((s.x2_num as f64 / s.den as f64 - 160.0).abs() <= 3.0, "{:?}", s);
}

#[test]
fn averaged_slope_lies_between_candidates() {
    let lines = vec![
        PolarLine { r: 300, angle_in_degrees: 40 },
        PolarLine { r: 300, angle_in_degrees: 60 },
    ];
    let segs = estimate_lanes(&lines, 480);
    assert_eq!(segs.len(), 1);
    let s = segs[0];
    let slope = (s.y2 - s.y1) as f64 * s.den as f64 / (s.x2_num - s.x1_num) as f64;
    // candidate slopes -cos / sin from the table: 40 deg -7660/6428, 60 deg -5000/8660
    assert!(-7660.0 / 6428.0 <= slope && slope <= -5000.0 / 8660.0, "{}", slope);
    // the averaged line is 12660 x + 15088 y = 6000000
    assert_eq!(s.den, 12660);
    assert_eq!(s.x1_num, 6000000 - 240 * 15088);
}
