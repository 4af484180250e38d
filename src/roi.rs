use vstd::prelude::*;
use vstd::arithmetic::div_mod::lemma_fundamental_div_mod_converse;
use crate::image::{lemma_pixel_count, GrayImage, MAX_DIM};

verus! {

/// The trapezoid of the road surface for a frame of the given size:
/// bottom-left, bottom-right, top-right, top-left.
pub open spec fn roi_spec(width: int, height: int) -> Seq<(int, int)> {
    seq![
        (0, height / 2),
        (width, height / 2),
        (width * 3 / 5, height / 5),
        (width * 2 / 5, height / 5),
    ]
}

pub open spec fn vertices_view(v: [(u32, u32); 4]) -> Seq<(int, int)> {
    Seq::new(4, |i: int| (v@[i].0 as int, v@[i].1 as int))
}

/// The point lies on or to the right of the edge from `top` to `bottom`,
/// compared in cross-multiplied form so that no division is needed.
pub open spec fn right_of_edge(px: int, py: int, top: (int, int), bottom: (int, int)) -> bool {
    let d = bottom.1 - top.1;
    if d > 0 {
        (px - top.0) * d >= (bottom.0 - top.0) * (py - top.1)
    } else {
        (px - top.0) * d <= (bottom.0 - top.0) * (py - top.1)
    }
}

/// The point lies on or to the left of the edge from `top` to `bottom`.
pub open spec fn left_of_edge(px: int, py: int, top: (int, int), bottom: (int, int)) -> bool {
    let d = bottom.1 - top.1;
    if d > 0 {
        (px - top.0) * d <= (bottom.0 - top.0) * (py - top.1)
    } else {
        (px - top.0) * d >= (bottom.0 - top.0) * (py - top.1)
    }
}

/// Membership in a trapezoid with horizontal top and bottom, boundary included.
/// The rows run from the top-right vertex's y to the bottom-left vertex's y; at
/// each row the x range is bounded by the left edge (top-left to bottom-left)
/// and the right edge (top-right to bottom-right). An edge whose two ends share
/// a row has no interpolation, and then no point is inside.
pub open spec fn in_trapezoid(px: int, py: int, v: Seq<(int, int)>) -> bool {
    &&& v[2].1 <= py <= v[0].1
    &&& v[0].1 != v[3].1
    &&& v[1].1 != v[2].1
    &&& right_of_edge(px, py, v[3], v[0])
    &&& left_of_edge(px, py, v[2], v[1])
}

/// The corners of the region of interest for a frame of the given size.
pub fn roi_vertices(width: u32, height: u32) -> (v: [(u32, u32); 4])
    requires
        width <= MAX_DIM,
    ensures
        vertices_view(v) == roi_spec(width as int, height as int),
{
    let v = [
        (0u32, height / 2),
        (width, height / 2),
        (width * 3 / 5, height / 5),
        (width * 2 / 5, height / 5),
    ];
    assert(vertices_view(v) =~= roi_spec(width as int, height as int));
    v
}

proof fn lemma_small_product(a: int, b: int)
    requires
        -0x1_0000_0000 <= a <= 0x1_0000_0000,
        -0x1_0000_0000 <= b <= 0x1_0000_0000,
    ensures
        -0x1_0000_0000_0000_0000 <= a * b <= 0x1_0000_0000_0000_0000,
{
    assert(-0x1_0000_0000_0000_0000 <= a * b <= 0x1_0000_0000_0000_0000) by (nonlinear_arith)
        requires
            -0x1_0000_0000 <= a <= 0x1_0000_0000,
            -0x1_0000_0000 <= b <= 0x1_0000_0000,
    ;
}

fn edge_test(px: u32, py: u32, top: (u32, u32), bottom: (u32, u32), right: bool) -> (r: bool)
    ensures
        right ==> r == right_of_edge(
            px as int,
            py as int,
            (top.0 as int, top.1 as int),
            (bottom.0 as int, bottom.1 as int),
        ),
        !right ==> r == left_of_edge(
            px as int,
            py as int,
            (top.0 as int, top.1 as int),
            (bottom.0 as int, bottom.1 as int),
        ),
{
    let d = bottom.1 as i128 - top.1 as i128;
    let a = px as i128 - top.0 as i128;
    let b = bottom.0 as i128 - top.0 as i128;
    let c = py as i128 - top.1 as i128;
    proof {
        lemma_small_product(a as int, d as int);
        lemma_small_product(b as int, c as int);
    }
    let lhs = a * d;
    let rhs = b * c;
    if (d > 0) == right {
        lhs >= rhs
    } else {
        lhs <= rhs
    }
}

/// Tells whether `point` lies in the trapezoid `vertices` (bottom-left,
/// bottom-right, top-right, top-left), boundary included.
pub fn is_point_in_polygon(point: (u32, u32), vertices: &[(u32, u32); 4]) -> (r: bool)
    ensures
        r == in_trapezoid(point.0 as int, point.1 as int, vertices_view(*vertices)),
{
    let (px, py) = point;
    if py < vertices[2].1 || py > vertices[0].1 {
        return false;
    }
    if vertices[0].1 == vertices[3].1 || vertices[1].1 == vertices[2].1 {
        return false;
    }
    edge_test(px, py, vertices[3], vertices[0], true) && edge_test(
        px,
        py,
        vertices[2],
        vertices[1],
        false,
    )
}

/// The masked value of pixel `i` (row-major) of `img`.
pub open spec fn masked_pixel(img: GrayImage, i: int) -> u8 {
    let w = img.width as int;
    if in_trapezoid(i % w, i / w, roi_spec(w, img.height as int)) {
        img.pixels@[i]
    } else {
        0
    }
}

pub open spec fn masked_of(img: GrayImage) -> Seq<u8> {
    Seq::new(img.pixels@.len(), |i: int| masked_pixel(img, i))
}

/// Keeps the pixels inside the region of interest and zeroes the others.
pub fn apply_roi(blurred: &GrayImage) -> (out: GrayImage)
    requires
        blurred.wf(),
    ensures
        out.wf(),
        out.same_shape(blurred),
        out.pixels@ == masked_of(*blurred),
{
    let w = blurred.width;
    let h = blurred.height;
    proof {
        lemma_pixel_count(w as int, h as int);
    }
    let vertices = roi_vertices(w, h);
    let n = h as usize * w as usize;
    let mut pixels: Vec<u8> = Vec::with_capacity(n);
    let mut i: usize = 0;
    let mut x: u32 = 0;
    let mut y: u32 = 0;
    while i < n
        invariant
            blurred.wf(),
            w == blurred.width,
            h == blurred.height,
            n == h * w,
            vertices_view(vertices) == roi_spec(w as int, h as int),
            i <= n,
            x < w,
            i == y * w + x,
            pixels@.len() == i,
            forall|j: int| 0 <= j < i ==> pixels@[j] == masked_pixel(*blurred, j),
        decreases n - i,
    {
        proof {
            lemma_fundamental_div_mod_converse(i as int, w as int, y as int, x as int);
        }
        if is_point_in_polygon((x, y), &vertices) {
            pixels.push(blurred.pixels[i]);
        } else {
            pixels.push(0);
        }
        i += 1;
        if x + 1 == w {
            x = 0;
            proof {
                assert(y * w + w == (y + 1) * w) by (nonlinear_arith);
                assert(y + 1 <= h) by (nonlinear_arith)
                    requires
                        i == (y + 1) * w,
                        i <= h * w,
                        w >= 1,
                ;
            }
            y = y + 1;
        } else {
            x = x + 1;
        }
    }
    assert(pixels@ =~= masked_of(*blurred));
    GrayImage { width: w, height: h, pixels }
}

/// Pixels in the rows above the top of the region or below its bottom are
/// always zeroed by the mask.
pub proof fn lemma_outside_rows_zero(img: GrayImage, x: int, y: int)
    requires
        img.wf(),
        0 <= x < img.width,
        0 <= y < img.height,
        y < img.height / 5 || y > img.height / 2,
    ensures
        masked_of(img)[y * img.width + x] == 0,
{
    let w = img.width as int;
    let i = y * w + x;
    assert(0 <= i < img.height * w) by (nonlinear_arith)
        requires
            0 <= x < w,
            0 <= y < img.height,
            i == y * w + x,
    ;
    lemma_fundamental_div_mod_converse(i, w, y, x);
}

/// The pixel at the horizontal middle of a frame, at the middle row of the
/// region, lies inside the region.
pub proof fn lemma_center_inside(width: int, height: int)
    requires
        1 <= width,
        2 <= height,
    ensures
        in_trapezoid(width / 2, (height / 5 + height / 2) / 2, roi_spec(width, height)),
{
    let v = roi_spec(width, height);
    let px = width / 2;
    let py = (height / 5 + height / 2) / 2;
    let top = height / 5;
    let bot = height / 2;
    assert(top < bot);
    assert(top <= py <= bot);
    assert(width * 2 / 5 <= px);
    assert(px <= width * 3 / 5);
    assert((px - width * 2 / 5) * (bot - top) >= (0 - width * 2 / 5) * (py - top)) by (
    nonlinear_arith)
        requires
            width * 2 / 5 <= px,
            top < bot,
            top <= py,
            width * 2 / 5 >= 0,
    ;
    assert((px - width * 3 / 5) * (bot - top) <= (width - width * 3 / 5) * (py - top)) by (
    nonlinear_arith)
        requires
            px <= width * 3 / 5,
            top < bot,
            top <= py,
            width * 3 / 5 <= width,
    ;
}

} // verus!
