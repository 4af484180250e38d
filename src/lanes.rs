use vstd::prelude::*;
use vstd::arithmetic::mul::{
    lemma_mul_is_associative, lemma_mul_is_distributive_add, lemma_mul_is_distributive_sub,
};

use crate::image::{lemma_pixel_count, GrayImage, MAX_DIM};
use crate::trig::{cos_deg, sin_cos_deg, sin_deg, TRIG_SCALE};

verus! {

/// Votes a line needs in the Hough accumulator to become a candidate.
pub const VOTE_THRESHOLD: u32 = 100;

/// Side of the accumulator block in which a candidate must hold the most
/// votes: `2 * SUPPRESSION_RADIUS + 1` buckets.
pub const SUPPRESSION_RADIUS: u32 = 8;

/// A candidate line in polar form: the points (x, y) with
/// x cos(angle) + y sin(angle) = r, in pixels, angle in whole degrees.
#[derive(Clone, Copy, Debug, PartialEq, Eq, Structural)]
pub struct PolarLine {
    pub r: i32,
    pub angle_in_degrees: u32,
}

/// A lane boundary as a segment from (x1, y1) at the bottom of the region
/// of interest to (x2, y2) at its top, in pixels. The x coordinates are
/// exact fractions over one positive denominator: x1 = x1_num / den and
/// x2 = x2_num / den.
#[derive(Clone, Copy, Debug, PartialEq, Eq, Structural)]
pub struct Segment {
    pub x1_num: i128,
    pub y1: i128,
    pub x2_num: i128,
    pub y2: i128,
    pub den: i128,
}

pub open spec fn polar_view(v: Seq<PolarLine>) -> Seq<(i32, u32)> {
    v.map_values(|l: PolarLine| (l.r, l.angle_in_degrees))
}

/// Relies on imageproc::hough::detect_lines: every angle is below 180 (the
/// accumulator has one row per degree in [0, 180)); `r` is a whole number of
/// pixels, so the conversion keeps it; only non-zero pixels vote, so an image
/// without one gives no line once a vote is required. Which lines come back
/// otherwise rests on a floating-point sine table, and nothing more is
/// assumed of it.
#[verifier::external_body]
fn detect_lines(edges: &GrayImage, vote_threshold: u32, suppression_radius: u32) -> (r: Vec<
    PolarLine,
>)
    requires
        edges.wf(),
        suppression_radius <= MAX_DIM,
    ensures
        forall|i: int| 0 <= i < r@.len() ==> r@[i].angle_in_degrees < 180,
        vote_threshold >= 1 && (forall|j: int|
            0 <= j < edges.pixels@.len() ==> edges.pixels@[j] == 0) ==> r@.len() == 0,
{
    let img = imageproc::image::GrayImage::from_raw(edges.width, edges.height, edges.pixels.clone())
        .unwrap();
    let options = imageproc::hough::LineDetectionOptions { vote_threshold, suppression_radius };
    imageproc::hough::detect_lines(&img, options).into_iter().map(
        |l| PolarLine { r: l.r as i32, angle_in_degrees: l.angle_in_degrees },
    ).collect()
}

/// A lane candidate: not vertical, and not near horizontal (the magnitude
/// of its slope, |cos| / sin, is at least 0.3).
pub open spec fn is_lane(l: (i32, u32)) -> bool {
    let s = sin_deg(l.1);
    let c = cos_deg(l.1);
    &&& l.1 < 180
    &&& s > 0
    &&& 10 * (if c >= 0 { c } else { -c }) >= 3 * s
}

/// With y growing downwards, a left lane has a negative slope -cos / sin,
/// so a positive cosine; a right lane a negative cosine.
pub open spec fn on_side(l: (i32, u32), left: bool) -> bool {
    &&& is_lane(l)
    &&& if left {
        cos_deg(l.1) > 0
    } else {
        cos_deg(l.1) < 0
    }
}

pub open spec fn side_count(s: Seq<(i32, u32)>, left: bool) -> int
    decreases s.len(),
{
    if s.len() == 0 {
        0
    } else {
        side_count(s.drop_last(), left) + if on_side(s.last(), left) {
            1int
        } else {
            0int
        }
    }
}

/// Sum of the scaled cosines of one side's candidates.
pub open spec fn side_cos(s: Seq<(i32, u32)>, left: bool) -> int
    decreases s.len(),
{
    if s.len() == 0 {
        0
    } else {
        side_cos(s.drop_last(), left) + if on_side(s.last(), left) {
            cos_deg(s.last().1)
        } else {
            0
        }
    }
}

/// Sum of the scaled sines of one side's candidates.
pub open spec fn side_sin(s: Seq<(i32, u32)>, left: bool) -> int
    decreases s.len(),
{
    if s.len() == 0 {
        0
    } else {
        side_sin(s.drop_last(), left) + if on_side(s.last(), left) {
            sin_deg(s.last().1)
        } else {
            0
        }
    }
}

/// Sum of the scaled distances `r * TRIG_SCALE` of one side's candidates.
pub open spec fn side_dist(s: Seq<(i32, u32)>, left: bool) -> int
    decreases s.len(),
{
    if s.len() == 0 {
        0
    } else {
        side_dist(s.drop_last(), left) + if on_side(s.last(), left) {
            s.last().0 * TRIG_SCALE
        } else {
            0
        }
    }
}

/// The sums of one side grow by at most one candidate's worth per line.
pub proof fn lemma_side_bounds(s: Seq<(i32, u32)>, left: bool)
    ensures
        0 <= side_count(s, left) <= s.len(),
        left ==> side_count(s, left) <= side_cos(s, left) <= 10000 * side_count(s, left),
        !left ==> -10000 * side_count(s, left) <= side_cos(s, left) <= -side_count(s, left),
        side_count(s, left) <= side_sin(s, left) <= 10000 * side_count(s, left),
        -21_474_836_480_000 * side_count(s, left) <= side_dist(s, left) <= 21_474_836_480_000
            * side_count(s, left),
    decreases s.len(),
{
    if s.len() > 0 {
        lemma_side_bounds(s.drop_last(), left);
        let l = s.last();
        if on_side(l, left) {
            assert(-21_474_836_480_000 <= l.0 * TRIG_SCALE <= 21_474_836_480_000);
        }
    }
}

proof fn lemma_side_count_nonneg(s: Seq<(i32, u32)>, left: bool)
    ensures
        side_count(s, left) >= 0,
    decreases s.len(),
{
    if s.len() > 0 {
        lemma_side_count_nonneg(s.drop_last(), left);
    }
}

/// Row of the bottom of the region of interest.
pub open spec fn roi_bottom(height: int) -> int {
    height / 2
}

/// Row of the top of the region of interest.
pub open spec fn roi_top(height: int) -> int {
    height / 5
}

/// One side's lane: the candidates' equations x cos + y sin = r (scaled by
/// `TRIG_SCALE`) are added up into one averaged line a x + b y = c, which is
/// drawn from the bottom of the region of interest to its top, with
/// x = (c - y b) / a kept as an exact fraction. Every candidate counts once:
/// the Hough vote hands back no vote counts to weight them by.
pub open spec fn side_segment(s: Seq<(i32, u32)>, left: bool, height: int) -> Segment {
    segment_of(side_cos(s, left), side_sin(s, left), side_dist(s, left), height)
}

/// The line a x + b y = c drawn from the bottom row of the region of
/// interest to its top row, with the sign of a moved into the numerators so
/// that the denominator is positive.
pub open spec fn segment_of(a: int, b: int, c: int, height: int) -> Segment {
    let yb = roi_bottom(height);
    let yt = roi_top(height);
    if a > 0 {
        Segment {
            x1_num: (c - yb * b) as i128,
            y1: yb as i128,
            x2_num: (c - yt * b) as i128,
            y2: yt as i128,
            den: a as i128,
        }
    } else {
        Segment {
            x1_num: (yb * b - c) as i128,
            y1: yb as i128,
            x2_num: (yt * b - c) as i128,
            y2: yt as i128,
            den: (-a) as i128,
        }
    }
}

pub open spec fn zero_segment() -> Segment {
    Segment { x1_num: 0, y1: 0, x2_num: 0, y2: 0, den: 1 }
}

/// What is returned when no candidate line was voted at all.
pub open spec fn fallback() -> Seq<Segment> {
    seq![zero_segment(), zero_segment()]
}

/// The lanes found among the voted lines `s`: the fallback pair when there is
/// none; otherwise the left lane if it has candidates, then the right lane if
/// it has.
pub open spec fn lanes_of(s: Seq<(i32, u32)>, height: int) -> Seq<Segment> {
    if s.len() == 0 {
        fallback()
    } else {
        let l = if side_count(s, true) > 0 {
            seq![side_segment(s, true, height)]
        } else {
            Seq::<Segment>::empty()
        };
        let r = if side_count(s, false) > 0 {
            seq![side_segment(s, false, height)]
        } else {
            Seq::<Segment>::empty()
        };
        l + r
    }
}

/// Tells whether a line is a candidate for the given side.
fn on_side_exec(l: PolarLine, left: bool) -> (b: bool)
    ensures
        b == on_side((l.r, l.angle_in_degrees), left),
{
    if l.angle_in_degrees >= 180 {
        return false;
    }
    let (s, c) = sin_cos_deg(l.angle_in_degrees);
    let ac = if c >= 0 {
        c
    } else {
        -c
    };
    s > 0 && 10 * ac >= 3 * s && if left {
        c > 0
    } else {
        c < 0
    }
}

/// Bound on the sums that the averaging adds up.
const SUM_BOUND: i128 = 0x0010_0000_0000_0000_0000_0000_0000_0000;

/// For at most `usize::MAX` lines and rows within `u32`, every quantity of
/// a side's segment fits well within `i128`.
proof fn lemma_segment_fits(s: Seq<(i32, u32)>, left: bool, y: int)
    requires
        s.len() <= usize::MAX,
        0 <= y <= u32::MAX,
    ensures
        -SUM_BOUND <= side_cos(s, left) <= SUM_BOUND,
        -SUM_BOUND <= side_sin(s, left) <= SUM_BOUND,
        -SUM_BOUND <= side_dist(s, left) <= SUM_BOUND,
        -SUM_BOUND <= y * side_sin(s, left) <= SUM_BOUND,
        -2 * SUM_BOUND <= side_dist(s, left) - y * side_sin(s, left) <= 2 * SUM_BOUND,
{
    lemma_side_bounds(s, left);
    let k = side_count(s, left);
    let b = side_sin(s, left);
    let d = side_dist(s, left);
    assert(0 <= k <= 0xFFFF_FFFF_FFFF_FFFF);
    assert(-21_474_836_480_000 * k >= -21_474_836_480_000 * 0xFFFF_FFFF_FFFF_FFFF) by (
    nonlinear_arith)
        requires
            0 <= k <= 0xFFFF_FFFF_FFFF_FFFF,
    ;
    assert(21_474_836_480_000 * k <= 21_474_836_480_000 * 0xFFFF_FFFF_FFFF_FFFF) by (
    nonlinear_arith)
        requires
            0 <= k <= 0xFFFF_FFFF_FFFF_FFFF,
    ;
    assert(0 <= b <= 10000 * 0xFFFF_FFFF_FFFF_FFFF);
    assert(0 <= y * b <= 0xFFFF_FFFF * (10000 * 0xFFFF_FFFF_FFFF_FFFF)) by (nonlinear_arith)
        requires
            0 <= y <= 0xFFFF_FFFF,
            0 <= b <= 10000 * 0xFFFF_FFFF_FFFF_FFFF,
    ;
}

/// Draws the line a x + b y = c across the region of interest.
fn make_segment(a: i128, b: i128, c: i128, height: u32) -> (seg: Segment)
    requires
        a != 0,
        -2 * SUM_BOUND <= c - (height / 2) as int * b <= 2 * SUM_BOUND,
        -2 * SUM_BOUND <= c - (height / 5) as int * b <= 2 * SUM_BOUND,
        -SUM_BOUND <= a <= SUM_BOUND,
        -SUM_BOUND <= b <= SUM_BOUND,
        -SUM_BOUND <= c <= SUM_BOUND,
        -SUM_BOUND <= (height / 2) as int * b <= SUM_BOUND,
        -SUM_BOUND <= (height / 5) as int * b <= SUM_BOUND,
    ensures
        seg == segment_of(a as int, b as int, c as int, height as int),
{
    let yb = height / 2;
    let yt = height / 5;
    let x1 = c - yb as i128 * b;
    let x2 = c - yt as i128 * b;
    assert(yb as int == roi_bottom(height as int));
    assert(yt as int == roi_top(height as int));
    assert(x1 == c - roi_bottom(height as int) * b);
    assert(x2 == c - roi_top(height as int) * b);
    if a > 0 {
        Segment { x1_num: x1, y1: yb as i128, x2_num: x2, y2: yt as i128, den: a }
    } else {
        Segment { x1_num: 0 - x1, y1: yb as i128, x2_num: 0 - x2, y2: yt as i128, den: 0 - a }
    }
}

/// The averaged segment of the candidates of one side, if it has any.
fn side_line(lines: &Vec<PolarLine>, left: bool, height: u32) -> (r: Option<Segment>)
    ensures
        side_count(polar_view(lines@), left) == 0 ==> r is None,
        side_count(polar_view(lines@), left) > 0 ==> r == Some(
            side_segment(polar_view(lines@), left, height as int),
        ),
{
    let ghost pv = polar_view(lines@);
    let yb = height / 2;
    let yt = height / 5;
    let mut a: i128 = 0;
    let mut b: i128 = 0;
    let mut c: i128 = 0;
    let mut k: usize = 0;
    let mut i: usize = 0;
    while i < lines.len()
        invariant
            pv == polar_view(lines@),
            pv.len() == lines@.len(),
            i <= lines@.len(),
            k == side_count(pv.take(i as int), left),
            a == side_cos(pv.take(i as int), left),
            b == side_sin(pv.take(i as int), left),
            c == side_dist(pv.take(i as int), left),
        decreases lines@.len() - i,
    {
        let l = lines[i];
        proof {
            assert(pv.take(i + 1).drop_last() =~= pv.take(i as int));
            assert(pv.take(i + 1).last() == (l.r, l.angle_in_degrees));
            lemma_side_bounds(pv.take(i + 1), left);
            lemma_segment_fits(pv.take(i + 1), left, 0);
        }
        if on_side_exec(l, left) {
            let (sn, cs) = sin_cos_deg(l.angle_in_degrees);
            a = a + cs as i128;
            b = b + sn as i128;
            c = c + l.r as i128 * TRIG_SCALE as i128;
            k = k + 1;
        }
        i = i + 1;
    }
    assert(pv.take(lines@.len() as int) =~= pv);
    if k == 0 {
        None
    } else {
        proof {
            lemma_side_bounds(pv, left);
            lemma_segment_fits(pv, left, yb as int);
            lemma_segment_fits(pv, left, yt as int);
        }
        Some(make_segment(a, b, c, height))
    }
}

/// Reduces the voted lines to at most one left and one right lane segment,
/// each the unweighted average of its side's candidates (the vote reports
/// no counts) drawn across the region of interest; with no voted line at all,
/// the fallback pair of zero segments.
pub fn estimate_lanes(lines: &Vec<PolarLine>, height: u32) -> (r: Vec<Segment>)
    ensures
        r@ == lanes_of(polar_view(lines@), height as int),
{
    let mut out: Vec<Segment> = Vec::new();
    if lines.len() == 0 {
        out.push(Segment { x1_num: 0, y1: 0, x2_num: 0, y2: 0, den: 1 });
        out.push(Segment { x1_num: 0, y1: 0, x2_num: 0, y2: 0, den: 1 });
        assert(out@ =~= fallback());
        return out;
    }
    let ghost pv = polar_view(lines@);
    assert(pv.len() == lines@.len());
    proof {
        lemma_side_count_nonneg(pv, true);
        lemma_side_count_nonneg(pv, false);
    }
    let left = side_line(lines, true, height);
    let right = side_line(lines, false, height);
    let ghost l = if side_count(pv, true) > 0 {
        seq![side_segment(pv, true, height as int)]
    } else {
        Seq::<Segment>::empty()
    };
    match left {
        Some(seg) => out.push(seg),
        None => {},
    }
    assert(out@ =~= l);
    match right {
        Some(seg) => out.push(seg),
        None => {},
    }
    assert(out@ =~= lanes_of(pv, height as int));
    out
}

/// Votes for lines over a binary edge image and reduces them to lane
/// segments.
pub fn hough_transform(edges: &GrayImage) -> (r: Vec<Segment>)
    requires
        edges.wf(),
    ensures
        exists|s: Seq<(i32, u32)>|
            (forall|i: int| 0 <= i < s.len() ==> (#[trigger] s[i]).1 < 180) && r@ == #[trigger] lanes_of(
                s,
                edges.height as int,
            ),
        (forall|j: int| 0 <= j < edges.pixels@.len() ==> edges.pixels@[j] == 0) ==> r@
            == fallback(),
{
    proof {
        lemma_pixel_count(edges.width as int, edges.height as int);
    }
    let lines = detect_lines(edges, VOTE_THRESHOLD, SUPPRESSION_RADIUS);
    let r = estimate_lanes(&lines, edges.height);
    assert(forall|i: int| 0 <= i < polar_view(lines@).len() ==> (#[trigger] polar_view(lines@)[i]).1 < 180);
    r
}

/// With no voted line, the estimate is the fallback pair of zero segments.
pub proof fn lemma_no_lines_fallback(height: int)
    ensures
        lanes_of(Seq::<(i32, u32)>::empty(), height) == fallback(),
        fallback().len() == 2,
{
}

/// A side with candidates gets a positive denominator, and both ends of its
/// segment lie exactly on the side's averaged line a x + b y = c.
pub proof fn lemma_segment_on_line(s: Seq<(i32, u32)>, left: bool, height: int)
    requires
        side_count(s, left) > 0,
        s.len() <= usize::MAX,
        0 <= height <= u32::MAX,
    ensures
        side_segment(s, left, height).den > 0,
        side_cos(s, left) * side_segment(s, left, height).x1_num + side_sin(s, left)
            * side_segment(s, left, height).y1 * side_segment(s, left, height).den == side_dist(
            s,
            left,
        ) * side_segment(s, left, height).den,
        side_cos(s, left) * side_segment(s, left, height).x2_num + side_sin(s, left)
            * side_segment(s, left, height).y2 * side_segment(s, left, height).den == side_dist(
            s,
            left,
        ) * side_segment(s, left, height).den,
{
    let a = side_cos(s, left);
    let b = side_sin(s, left);
    let c = side_dist(s, left);
    let yb = roi_bottom(height);
    let yt = roi_top(height);
    lemma_side_bounds(s, left);
    lemma_segment_fits(s, left, yb);
    lemma_segment_fits(s, left, yt);
    let seg = side_segment(s, left, height);
    if a > 0 {
        assert(seg.den == a && seg.x1_num == c - yb * b && seg.x2_num == c - yt * b);
        assert(a * (c - yb * b) + b * yb * a == c * a) by (nonlinear_arith);
        assert(a * (c - yt * b) + b * yt * a == c * a) by (nonlinear_arith);
    } else {
        assert(seg.den == -a && seg.x1_num == yb * b - c && seg.x2_num == yt * b - c);
        assert(a * (yb * b - c) + b * yb * (-a) == c * (-a)) by (nonlinear_arith);
        assert(a * (yt * b - c) + b * yt * (-a) == c * (-a)) by (nonlinear_arith);
    }
}

/// With at least two rows, the segment runs upwards from the bottom row to
/// the top row; the left lane's x grows on the way up and the right lane's x
/// shrinks, so in image coordinates the left slope is negative and the right
/// slope positive.
pub proof fn lemma_segment_slope_sign(s: Seq<(i32, u32)>, left: bool, height: int)
    requires
        side_count(s, left) > 0,
        s.len() <= usize::MAX,
        2 <= height <= u32::MAX,
    ensures
        side_segment(s, left, height).y2 < side_segment(s, left, height).y1,
        left ==> side_segment(s, left, height).x1_num < side_segment(s, left, height).x2_num,
        !left ==> side_segment(s, left, height).x2_num < side_segment(s, left, height).x1_num,
{
    let a = side_cos(s, left);
    let b = side_sin(s, left);
    let c = side_dist(s, left);
    let yb = roi_bottom(height);
    let yt = roi_top(height);
    lemma_side_bounds(s, left);
    lemma_segment_fits(s, left, yb);
    lemma_segment_fits(s, left, yt);
    let seg = side_segment(s, left, height);
    assert(left ==> seg.x1_num == c - yb * b && seg.x2_num == c - yt * b);
    assert(!left ==> seg.x1_num == yb * b - c && seg.x2_num == yt * b - c);
    assert(yt < yb);
    assert((c - yt * b) - (c - yb * b) == (yb - yt) * b) by (nonlinear_arith);
    assert((yb - yt) * b > 0) by (nonlinear_arith)
        requires
            yt < yb,
            b >= 1,
    ;
}

/// When every candidate of a side is the same line, the side's sums are that
/// line's equation taken once per candidate.
pub proof fn lemma_identical_sums(s: Seq<(i32, u32)>, left: bool, l: (i32, u32))
    requires
        forall|i: int| 0 <= i < s.len() && on_side(#[trigger] s[i], left) ==> s[i] == l,
    ensures
        side_cos(s, left) == side_count(s, left) * cos_deg(l.1),
        side_sin(s, left) == side_count(s, left) * sin_deg(l.1),
        side_dist(s, left) == side_count(s, left) * (l.0 * TRIG_SCALE),
    decreases s.len(),
{
    if s.len() > 0 {
        let t = s.drop_last();
        assert forall|i: int| 0 <= i < t.len() && on_side(#[trigger] t[i], left) implies t[i]
            == l by {
            assert(t[i] == s[i]);
        }
        lemma_identical_sums(t, left, l);
        let k = side_count(t, left);
        assert((k + 1) * cos_deg(l.1) == k * cos_deg(l.1) + cos_deg(l.1)) by (nonlinear_arith);
        assert((k + 1) * sin_deg(l.1) == k * sin_deg(l.1) + sin_deg(l.1)) by (nonlinear_arith);
        assert((k + 1) * (l.0 * TRIG_SCALE) == k * (l.0 * TRIG_SCALE) + l.0 * TRIG_SCALE) by (
        nonlinear_arith);
    }
}

proof fn lemma_cancel_scale(k: int, a: int, b: int, c: int, x: int, y: int, d: int)
    requires
        k > 0,
        (k * a) * x + (k * b) * y * d == (k * c) * d,
    ensures
        a * x + b * y * d == c * d,
{
    lemma_mul_is_associative(k, a, x);
    lemma_mul_is_associative(k, b, y);
    lemma_mul_is_associative(k, b * y, d);
    lemma_mul_is_associative(k, c, d);
    let e = a * x + b * y * d - c * d;
    lemma_mul_is_distributive_add(k, a * x, b * y * d);
    lemma_mul_is_distributive_sub(k, a * x + b * y * d, c * d);
    assert(k * e == 0);
    assert(e == 0) by (nonlinear_arith)
        requires
            k * e == 0,
            k > 0,
    ;
}

/// When every candidate of a side is the same line x cos + y sin = r, both
/// ends of the side's segment lie exactly on that line.
pub proof fn lemma_identical_candidates_keep_line(
    s: Seq<(i32, u32)>,
    left: bool,
    l: (i32, u32),
    height: int,
)
    requires
        side_count(s, left) > 0,
        s.len() <= usize::MAX,
        0 <= height <= u32::MAX,
        forall|i: int| 0 <= i < s.len() && on_side(#[trigger] s[i], left) ==> s[i] == l,
    ensures
        cos_deg(l.1) * side_segment(s, left, height).x1_num + sin_deg(l.1) * side_segment(
            s,
            left,
            height,
        ).y1 * side_segment(s, left, height).den == l.0 * TRIG_SCALE * side_segment(
            s,
            left,
            height,
        ).den,
        cos_deg(l.1) * side_segment(s, left, height).x2_num + sin_deg(l.1) * side_segment(
            s,
            left,
            height,
        ).y2 * side_segment(s, left, height).den == l.0 * TRIG_SCALE * side_segment(
            s,
            left,
            height,
        ).den,
{
    lemma_segment_on_line(s, left, height);
    lemma_identical_sums(s, left, l);
    let k = side_count(s, left);
    let seg = side_segment(s, left, height);
    let cl = cos_deg(l.1);
    let sl = sin_deg(l.1);
    let rl = l.0 * TRIG_SCALE;
    lemma_cancel_scale(k, cl, sl, rl, seg.x1_num as int, seg.y1 as int, seg.den as int);
    lemma_cancel_scale(k, cl, sl, rl, seg.x2_num as int, seg.y2 as int, seg.den as int);
}

/// cos / sin of candidate `l` is at most a / b.
pub open spec fn ratio_at_most(l: (i32, u32), a: int, b: int) -> bool {
    cos_deg(l.1) * b <= a * sin_deg(l.1)
}

/// cos / sin of candidate `l` is at least a / b.
pub open spec fn ratio_at_least(l: (i32, u32), a: int, b: int) -> bool {
    a * sin_deg(l.1) <= cos_deg(l.1) * b
}

proof fn lemma_mediant_step(c: int, sv: int, a0: int, b0: int, cj: int, sj: int)
    requires
        b0 > 0,
        sv > 0,
        sj > 0,
        c * b0 <= a0 * sv,
        a0 * sj <= cj * b0,
    ensures
        c * (b0 + sv) <= (a0 + c) * sv,
        (a0 + c) * sj <= cj * (b0 + sv),
{
    assert(c * sj <= cj * sv) by (nonlinear_arith)
        requires
            b0 > 0,
            sv > 0,
            sj > 0,
            c * b0 <= a0 * sv,
            a0 * sj <= cj * b0,
    ;
    assert(c * (b0 + sv) <= (a0 + c) * sv) by (nonlinear_arith)
        requires
            c * b0 <= a0 * sv,
    ;
    assert((a0 + c) * sj <= cj * (b0 + sv)) by (nonlinear_arith)
        requires
            a0 * sj <= cj * b0,
            c * sj <= cj * sv,
    ;
}

proof fn lemma_mediant_step_rev(c: int, sv: int, a0: int, b0: int, ci: int, si: int)
    requires
        b0 > 0,
        sv > 0,
        si > 0,
        a0 * sv <= c * b0,
        ci * b0 <= a0 * si,
    ensures
        (a0 + c) * sv <= c * (b0 + sv),
        ci * (b0 + sv) <= (a0 + c) * si,
{
    assert(ci * sv <= c * si) by (nonlinear_arith)
        requires
            b0 > 0,
            sv > 0,
            si > 0,
            a0 * sv <= c * b0,
            ci * b0 <= a0 * si,
    ;
    assert((a0 + c) * sv <= c * (b0 + sv)) by (nonlinear_arith)
        requires
            a0 * sv <= c * b0,
    ;
    assert(ci * (b0 + sv) <= (a0 + c) * si) by (nonlinear_arith)
        requires
            ci * b0 <= a0 * si,
            ci * sv <= c * si,
    ;
}

/// The averaged line of a side with candidates has its slope -a / b between
/// the smallest and the largest slope -cos / sin of those candidates: some
/// candidate has cos / sin at most a / b, and some has it at least a / b.
#[verifier::rlimit(60)]
pub proof fn lemma_average_slope_within(s: Seq<(i32, u32)>, left: bool)
    requires
        side_count(s, left) > 0,
    ensures
        exists|i: int|
            0 <= i < s.len() && on_side(s[i], left) && #[trigger] ratio_at_most(
                s[i],
                side_cos(s, left),
                side_sin(s, left),
            ),
        exists|j: int|
            0 <= j < s.len() && on_side(s[j], left) && #[trigger] ratio_at_least(
                s[j],
                side_cos(s, left),
                side_sin(s, left),
            ),
    decreases s.len(),
{
    let t = s.drop_last();
    let l = s.last();
    let n = s.len() - 1;
    let a = side_cos(s, left);
    let b = side_sin(s, left);
    let a0 = side_cos(t, left);
    let b0 = side_sin(t, left);
    lemma_side_bounds(t, left);
    if !on_side(l, left) {
        lemma_average_slope_within(t, left);
        let i = choose|i: int|
            0 <= i < t.len() && on_side(t[i], left) && #[trigger] ratio_at_most(t[i], a0, b0);
        let j = choose|j: int|
            0 <= j < t.len() && on_side(t[j], left) && #[trigger] ratio_at_least(t[j], a0, b0);
        assert(s[i] == t[i] && s[j] == t[j]);
        assert(ratio_at_most(s[i], a, b));
        assert(ratio_at_least(s[j], a, b));
    } else {
        let c = cos_deg(l.1);
        let sv = sin_deg(l.1);
        assert(s[n] == l);
        if side_count(t, left) == 0 {
            assert(a0 == 0 && b0 == 0);
            assert(c * sv <= c * sv);
            assert(ratio_at_most(s[n], a, b));
            assert(ratio_at_least(s[n], a, b));
        } else {
            lemma_average_slope_within(t, left);
            let i = choose|i: int|
                0 <= i < t.len() && on_side(t[i], left) && #[trigger] ratio_at_most(t[i], a0, b0);
            let j = choose|j: int|
                0 <= j < t.len() && on_side(t[j], left) && #[trigger] ratio_at_least(t[j], a0, b0);
            assert(s[i] == t[i] && s[j] == t[j]);
            if c * b0 <= a0 * sv {
                lemma_mediant_step(c, sv, a0, b0, cos_deg(t[j].1), sin_deg(t[j].1));
                assert(ratio_at_most(s[n], a, b));
                assert(ratio_at_least(s[j], a, b));
            } else {
                lemma_mediant_step_rev(c, sv, a0, b0, cos_deg(t[i].1), sin_deg(t[i].1));
                assert(ratio_at_least(s[n], a, b));
                assert(ratio_at_most(s[i], a, b));
            }
        }
    }
}

} // verus!
