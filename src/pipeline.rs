use vstd::prelude::*;
use crate::color::{bgr_to_gray, gray_of};
use crate::image::{Frame, GrayImage, PipelineError};
use crate::lanes::{fallback, hough_transform, lanes_of, Segment};
use crate::roi::{apply_roi, masked_of};

verus! {

/// A stage that keeps the size of every well-formed image it is given.
pub open spec fn keeps_shape<F: Fn(&GrayImage) -> GrayImage>(stage: F) -> bool {
    forall|g: &GrayImage, o: GrayImage|
        #[trigger] stage.ensures((g,), o) && g.wf() ==> o.wf() && o.same_shape(g)
}

/// The intermediate images of one run: the intensity image, the smoothed
/// image, the masked image and the edge image, each of the frame's size.
pub open spec fn pipeline_run<B: Fn(&GrayImage) -> GrayImage, E: Fn(&GrayImage) -> GrayImage>(
    frame: Frame,
    smooth: B,
    find_edges: E,
    gray: GrayImage,
    blurred: GrayImage,
    masked: GrayImage,
    edges: GrayImage,
) -> bool {
    &&& gray.wf() && gray.width == frame.width && gray.height == frame.height
    &&& gray.pixels@ == gray_of(frame.data@)
    &&& smooth.ensures((&gray,), blurred)
    &&& blurred.wf() && blurred.same_shape(&gray)
    &&& masked.wf() && masked.same_shape(&blurred) && masked.pixels@ == masked_of(blurred)
    &&& find_edges.ensures((&masked,), edges)
    &&& edges.wf() && edges.same_shape(&masked)
}

/// The smoothing stage, given this frame's intensity image, returned an
/// image that is malformed or of another size.
pub open spec fn smooth_broke<B: Fn(&GrayImage) -> GrayImage>(
    frame: Frame,
    smooth: B,
    gray: GrayImage,
    blurred: GrayImage,
) -> bool {
    &&& gray.wf() && gray.width == frame.width && gray.height == frame.height
    &&& gray.pixels@ == gray_of(frame.data@)
    &&& smooth.ensures((&gray,), blurred)
    &&& !(blurred.wf() && blurred.same_shape(&gray))
}

/// The smoothing stage kept the size, and the edge stage, given the masked
/// image, returned an image that is malformed or of another size.
pub open spec fn edges_broke<B: Fn(&GrayImage) -> GrayImage, E: Fn(&GrayImage) -> GrayImage>(
    frame: Frame,
    smooth: B,
    find_edges: E,
    gray: GrayImage,
    blurred: GrayImage,
    masked: GrayImage,
    edges: GrayImage,
) -> bool {
    &&& gray.wf() && gray.width == frame.width && gray.height == frame.height
    &&& gray.pixels@ == gray_of(frame.data@)
    &&& smooth.ensures((&gray,), blurred)
    &&& blurred.wf() && blurred.same_shape(&gray)
    &&& masked.wf() && masked.same_shape(&blurred) && masked.pixels@ == masked_of(blurred)
    &&& find_edges.ensures((&masked,), edges)
    &&& !(edges.wf() && edges.same_shape(&masked))
}

/// Runs the whole pipeline on one frame: colour reduction, the given
/// smoothing stage, the region mask, the given edge stage, and the line
/// estimate. The smoothing and edge stages are handed in by the caller.
pub fn detect_lanes<B, E>(frame: &Frame, smooth: B, find_edges: E) -> (r: Result<
    Vec<Segment>,
    PipelineError,
>) where B: Fn(&GrayImage) -> GrayImage, E: Fn(&GrayImage) -> GrayImage
    requires
        frame.wf(),
        forall|g: &GrayImage| g.wf() ==> #[trigger] smooth.requires((g,)),
        forall|g: &GrayImage| g.wf() ==> #[trigger] find_edges.requires((g,)),
    ensures
        r is Err ==> r == Err::<Vec<Segment>, PipelineError>(PipelineError::StageShape),
        r is Err ==> (exists|gray: GrayImage, blurred: GrayImage|
            #[trigger] smooth_broke(*frame, smooth, gray, blurred)) || (exists|
            gray: GrayImage,
            blurred: GrayImage,
            masked: GrayImage,
            edges: GrayImage,
        | #[trigger] edges_broke(*frame, smooth, find_edges, gray, blurred, masked, edges)),
        keeps_shape(smooth) && keeps_shape(find_edges) ==> r is Ok,
        r matches Ok(segs) ==> exists|
            gray: GrayImage,
            blurred: GrayImage,
            masked: GrayImage,
            edges: GrayImage,
        |
            #[trigger] pipeline_run(*frame, smooth, find_edges, gray, blurred, masked, edges)
                && (exists|s: Seq<(i32, u32)>| segs@ == #[trigger] lanes_of(s, edges.height as int))
                && ((forall|j: int|
                0 <= j < edges.pixels@.len() ==> edges.pixels@[j] == 0) ==> segs@ == fallback()),
{
    let gray = bgr_to_gray(frame);
    let blurred = smooth(&gray);
    if !blurred.is_well_formed() || blurred.width != gray.width || blurred.height != gray.height {
        assert(smooth_broke(*frame, smooth, gray, blurred));
        return Err(PipelineError::StageShape);
    }
    let masked = apply_roi(&blurred);
    let edges = find_edges(&masked);
    if !edges.is_well_formed() || edges.width != masked.width || edges.height != masked.height {
        assert(edges_broke(*frame, smooth, find_edges, gray, blurred, masked, edges));
        return Err(PipelineError::StageShape);
    }
    let segs = hough_transform(&edges);
    assert(pipeline_run(*frame, smooth, find_edges, gray, blurred, masked, edges));
    Ok(segs)
}

/// Every intermediate image of a run has the frame's height and width.
pub proof fn lemma_run_keeps_size<B: Fn(&GrayImage) -> GrayImage, E: Fn(&GrayImage) -> GrayImage>(
    frame: Frame,
    smooth: B,
    find_edges: E,
    gray: GrayImage,
    blurred: GrayImage,
    masked: GrayImage,
    edges: GrayImage,
)
    requires
        pipeline_run(frame, smooth, find_edges, gray, blurred, masked, edges),
    ensures
        gray.width == frame.width && gray.height == frame.height,
        blurred.width == frame.width && blurred.height == frame.height,
        masked.width == frame.width && masked.height == frame.height,
        edges.width == frame.width && edges.height == frame.height,
{
}

/// The verified stages keep no state: equal frames give equal intensity
/// images, equal smoothed images give equal masks, and equal voted lines on
/// images of one height give equal lanes.
pub proof fn lemma_stages_deterministic(
    f1: Frame,
    f2: Frame,
    b1: GrayImage,
    b2: GrayImage,
    l1: Seq<(i32, u32)>,
    l2: Seq<(i32, u32)>,
    height: int,
)
    requires
        f1.data@ == f2.data@,
        b1.pixels@ == b2.pixels@ && b1.same_shape(&b2),
        l1 == l2,
    ensures
        gray_of(f1.data@) == gray_of(f2.data@),
        masked_of(b1) == masked_of(b2),
        lanes_of(l1, height) == lanes_of(l2, height),
{
    assert(masked_of(b1) =~= masked_of(b2));
}

} // verus!
