//! The whole normalisation of one image: detect, crop, scale to fit, paste
//! centred on the canvas.

use vstd::prelude::*;
use crate::canvas::{composite, CanvasSpec};
use crate::detect::{BoundingBox, detect_foreground, detect_spec, has_foreground, is_foreground, Detection};
use crate::error::NormalizeError;
use crate::grid::{white, GridView, Rgba, RgbaGrid};
use crate::imaging::{luma, luma_view};
use crate::scale::{fit_spec, scale_to_fit};

verus! {

/// The size the box takes in the interior of the canvas.
pub open spec fn fitted_size(b: BoundingBox, canvas: CanvasSpec) -> (int, int) {
    fit_spec(
        b.right - b.left,
        b.bottom - b.top,
        canvas.width() - 2 * canvas.padding(),
        canvas.height() - 2 * canvas.padding(),
    )
}

/// `(x, y)` lies in the `w x h` rectangle centred (offsets rounded down) on
/// a canvas `width x height` in size.
pub open spec fn in_centred_rect(width: int, height: int, w: int, h: int, x: int, y: int) -> bool {
    let ox = (width - w) / 2;
    let oy = (height - h) / 2;
    ox <= x < ox + w && oy <= y < oy + h
}

/// `out` is a `width x height` grid, white everywhere outside the centred
/// `w x h` rectangle where the object is pasted.
pub open spec fn is_placed(out: GridView<Rgba>, width: nat, height: nat, w: int, h: int) -> bool {
    &&& out.wf()
    &&& out.width == width
    &&& out.height == height
    &&& forall|x: int, y: int|
        0 <= x < width && 0 <= y < height && !in_centred_rect(width as int, height as int, w, h, x, y)
            ==> #[trigger] out.at(x, y) == white()
}

/// What normalising `image` yields: `InvalidGeometry` when no pixel is
/// foreground; otherwise a canvas-sized image, white outside the centred
/// rectangle of the size that the tight box around the foreground takes in
/// the interior box. Inside that rectangle stand the pixels that the
/// resampler made of the cropped box.
pub open spec fn normalize_outcome(
    image: GridView<Rgba>,
    canvas: CanvasSpec,
    tolerance: u8,
    r: Result<GridView<Rgba>, NormalizeError>,
) -> bool {
    match detect_spec(luma_view(image), tolerance) {
        Detection::Empty => r == Err::<GridView<Rgba>, NormalizeError>(NormalizeError::InvalidGeometry),
        Detection::Found(b) => {
            let (w, h) = fitted_size(b, canvas);
            r matches Ok(out) && is_placed(out, canvas.width() as nat, canvas.height() as nat, w, h)
        },
    }
}

/// The view of a result.
pub open spec fn result_view(r: Result<RgbaGrid, NormalizeError>) -> Result<GridView<Rgba>, NormalizeError> {
    match r {
        Ok(g) => Ok(g@),
        Err(e) => Err(e),
    }
}

/// Normalises one image onto the canvas. Fails with `InvalidGeometry`
/// when no pixel is darker than `255 - tolerance`; otherwise returns a
/// canvas-sized image. The sizes bound the resampler's working buffers and
/// the canvas buffer.
pub fn process_image(image: &RgbaGrid, canvas: &CanvasSpec, tolerance: u8) -> (r: Result<
    RgbaGrid,
    NormalizeError,
>)
    requires
        16 * (image@.width * canvas.height()) <= isize::MAX,
        4 * (canvas.width() * canvas.height()) <= isize::MAX,
    ensures
        normalize_outcome(image@, *canvas, tolerance, result_view(r)),
        r is Err <==> !has_foreground(luma_view(image@), tolerance),
        r matches Err(e) ==> e == NormalizeError::InvalidGeometry,
        r matches Ok(out) ==> out@.width == canvas.width() && out@.height == canvas.height(),
{
    let gray = image.to_luma();
    match detect_foreground(&gray, tolerance) {
        Detection::Empty => Err(NormalizeError::InvalidGeometry),
        Detection::Found(b) => {
            let w = b.right - b.left;
            let h = b.bottom - b.top;
            let (iw, ih) = canvas.interior();
            let cropped = image.crop(b.left, b.top, w, h);
            match scale_to_fit(w, h, iw, ih) {
                Err(e) => Err(e),
                Ok((nw, nh)) => {
                    proof {
                        assert(16 * (w as int * nh as int) <= 16 * (image@.width * canvas.height())) by (nonlinear_arith)
                            requires
                                w <= image@.width,
                                nh <= canvas.height(),
                        ;
                        assert(4 * (nw as int * nh as int) <= 4 * (canvas.width() * canvas.height())) by (nonlinear_arith)
                            requires
                                nw <= canvas.width(),
                                nh <= canvas.height(),
                        ;
                    }
                    let resized = cropped.resize(nw, nh);
                    let r = composite(&resized, canvas.width(), canvas.height());
                    proof {
                        if let Ok(c) = &r {
                            let cw = canvas.width() as int;
                            let ch = canvas.height() as int;
                            assert forall|x: int, y: int|
                                0 <= x < cw && 0 <= y < ch && !in_centred_rect(cw, ch, nw as int, nh as int, x, y)
                                    implies #[trigger] c@.at(x, y) == white() by {}
                        }
                    }
                    r
                },
            }
        },
    }
}

/// Normalisation is deterministic up to the resampler: two runs with the
/// same image, canvas and tolerance both succeed or fail with the same
/// error, and where they succeed the two images have the same size and the
/// same pixels everywhere outside the rectangle holding the resampled
/// object.
pub proof fn lemma_normalize_deterministic(
    image: GridView<Rgba>,
    canvas: CanvasSpec,
    tolerance: u8,
    first: Result<GridView<Rgba>, NormalizeError>,
    second: Result<GridView<Rgba>, NormalizeError>,
)
    requires
        normalize_outcome(image, canvas, tolerance, first),
        normalize_outcome(image, canvas, tolerance, second),
    ensures
        first is Ok <==> second is Ok,
        first matches Err(e1) ==> second matches Err(e2) && e1 == e2,
        first matches Ok(a) ==> second matches Ok(b) && a.width == b.width && a.height == b.height,
        first matches Ok(a) ==> second matches Ok(b) && detect_spec(luma_view(image), tolerance) matches Detection::Found(
            bx,
        ) && forall|x: int, y: int|
            0 <= x < a.width && 0 <= y < a.height && !in_centred_rect(
                a.width as int,
                a.height as int,
                fitted_size(bx, canvas).0,
                fitted_size(bx, canvas).1,
                x,
                y,
            ) ==> #[trigger] a.at(x, y) == b.at(x, y),
{
}

/// An image whose every pixel is opaque white has no foreground at any
/// tolerance, so normalising it fails with `InvalidGeometry`.
pub proof fn lemma_blank_image_rejected(image: RgbaGrid, canvas: CanvasSpec, tolerance: u8)
    requires
        forall|x: int, y: int|
            0 <= x < image@.width && 0 <= y < image@.height ==> #[trigger] image@.at(x, y) == white(),
    ensures
        detect_spec(luma_view(image@), tolerance) == Detection::Empty,
        forall|r: Result<GridView<Rgba>, NormalizeError>|
            normalize_outcome(image@, canvas, tolerance, r) ==> r == Err::<GridView<Rgba>, NormalizeError>(
                NormalizeError::InvalidGeometry,
            ),
{
    let g = luma_view(image@);
    assert(luma(white()) == 255);
    assert(!has_foreground(g, tolerance)) by {
        assert forall|x: int, y: int| !is_foreground(g, tolerance, x, y) by {
            if 0 <= x < g.width && 0 <= y < g.height {
                assert(image@.at(x, y) == white());
            }
        }
    }
}

} // verus!
