//! The output canvas: its configuration, and compositing an object centred
//! on a white background.

use vstd::prelude::*;
use crate::error::NormalizeError;
use crate::grid::{
    cell, lemma_cell_before, lemma_rgba_view_by_cells, push_pixel, rgba_at, white, GridView, Rgba,
    RgbaGrid,
};

verus! {

/// Canvas size and the padding kept free on every side of the object.
#[derive(Clone, Copy, Debug)]
pub struct CanvasSpec {
    width: u32,
    height: u32,
    padding: u32,
}

impl CanvasSpec {
    #[verifier::type_invariant]
    spec fn inv(self) -> bool {
        2 * self.padding < self.width && 2 * self.padding < self.height
    }

    pub closed spec fn spec_width(&self) -> u32 {
        self.width
    }

    pub closed spec fn spec_height(&self) -> u32 {
        self.height
    }

    pub closed spec fn spec_padding(&self) -> u32 {
        self.padding
    }

    /// A canvas of `width x height` pixels with `padding` pixels kept free
    /// on each side; the padding must leave an interior on both axes.
    pub fn new(width: u32, height: u32, padding: u32) -> (r: Result<CanvasSpec, NormalizeError>)
        ensures
            r is Err <==> 2 * padding >= width || 2 * padding >= height,
            r matches Err(e) ==> e == NormalizeError::InvalidConfiguration,
            r matches Ok(c) ==> c.width() == width && c.height() == height && c.padding() == padding,
    {
        if padding as u64 * 2 >= width as u64 || padding as u64 * 2 >= height as u64 {
            Err(NormalizeError::InvalidConfiguration)
        } else {
            Ok(CanvasSpec { width, height, padding })
        }
    }

    #[verifier::when_used_as_spec(spec_width)]
    pub fn width(&self) -> (r: u32)
        ensures
            r == self.spec_width(),
    {
        self.width
    }

    #[verifier::when_used_as_spec(spec_height)]
    pub fn height(&self) -> (r: u32)
        ensures
            r == self.spec_height(),
    {
        self.height
    }

    #[verifier::when_used_as_spec(spec_padding)]
    pub fn padding(&self) -> (r: u32)
        ensures
            r == self.spec_padding(),
    {
        self.padding
    }

    /// The interior box `(width - 2 * padding, height - 2 * padding)`, which
    /// is never empty.
    pub fn interior(&self) -> (r: (u32, u32))
        ensures
            r.0 == self.width() - 2 * self.padding(),
            r.1 == self.height() - 2 * self.padding(),
            r.0 >= 1,
            r.1 >= 1,
    {
        proof {
            use_type_invariant(self);
        }
        (self.width - 2 * self.padding, self.height - 2 * self.padding)
    }
}

/// `object` pasted on a white `width x height` canvas with its top left
/// corner at `((width - w) / 2, (height - h) / 2)`.
pub open spec fn composite_view(object: GridView<Rgba>, width: nat, height: nat) -> GridView<Rgba> {
    let ox = (width - object.width) / 2;
    let oy = (height - object.height) / 2;
    GridView {
        width,
        height,
        rows: Seq::new(
            height,
            |y: int|
                Seq::new(
                    width,
                    |x: int|
                        if ox <= x < ox + object.width && oy <= y < oy + object.height {
                            object.at(x - ox, y - oy)
                        } else {
                            white()
                        },
                ),
        ),
    }
}

/// A `width x height` canvas, white, with `object` pasted centred on it
/// (offsets rounded down); an object larger than the canvas is refused.
/// The canvas buffer must be addressable.
pub fn composite(object: &RgbaGrid, width: u32, height: u32) -> (r: Result<RgbaGrid, NormalizeError>)
    requires
        4 * (width as int * height as int) <= isize::MAX,
    ensures
        r is Err <==> object@.width > width || object@.height > height,
        r matches Err(e) ==> e == NormalizeError::OutOfBounds,
        r matches Ok(c) ==> c@ == composite_view(object@, width as nat, height as nat),
        r matches Ok(c) ==> c@.width == width && c@.height == height,
{
    let ow = object.width();
    let oh = object.height();
    if ow > width || oh > height {
        return Err(NormalizeError::OutOfBounds);
    }
    let ox: u32 = (width - ow) / 2;
    let oy: u32 = (height - oh) / 2;
    let ghost v = composite_view(object@, width as nat, height as nat);
    let mut out: Vec<u8> = Vec::new();
    let mut y: u32 = 0;
    while y < height
        invariant
            y <= height,
            ow == object@.width,
            oh == object@.height,
            ow <= width,
            oh <= height,
            ox == (width - ow) / 2,
            oy == (height - oh) / 2,
            v == composite_view(object@, width as nat, height as nat),
            out@.len() == 4 * cell(width as int, 0, y as int),
            forall|xx: int, yy: int|
                0 <= xx < width && 0 <= yy < y ==> rgba_at(out@, 4 * #[trigger] cell(width as int, xx, yy))
                    == v.at(xx, yy),
        decreases height - y,
    {
        let mut x: u32 = 0;
        while x < width
            invariant
                x <= width,
                y < height,
                ow == object@.width,
                oh == object@.height,
                ow <= width,
                oh <= height,
                ox == (width - ow) / 2,
                oy == (height - oh) / 2,
                v == composite_view(object@, width as nat, height as nat),
                out@.len() == 4 * cell(width as int, x as int, y as int),
                forall|xx: int, yy: int|
                    0 <= xx < width && 0 <= yy < y ==> rgba_at(out@, 4 * #[trigger] cell(width as int, xx, yy))
                        == v.at(xx, yy),
                forall|xx: int|
                    0 <= xx < x ==> rgba_at(out@, 4 * #[trigger] cell(width as int, xx, y as int)) == v.at(
                        xx,
                        y as int,
                    ),
            decreases width - x,
        {
            let p = if ox <= x && x - ox < ow && oy <= y && y - oy < oh {
                object.pixel(x - ox, y - oy)
            } else {
                Rgba { r: 255, g: 255, b: 255, a: 255 }
            };
            assert(p == v.at(x as int, y as int));
            let ghost before = out@;
            push_pixel(&mut out, p);
            proof {
                assert forall|xx: int, yy: int|
                    0 <= xx < width && 0 <= yy < y implies rgba_at(out@, 4 * #[trigger] cell(width as int, xx, yy))
                        == v.at(xx, yy) by {
                    lemma_cell_before(width as int, xx, yy, x as int, y as int);
                    assert(rgba_at(out@, 4 * cell(width as int, xx, yy)) == rgba_at(
                        before,
                        4 * cell(width as int, xx, yy),
                    ));
                }
                assert forall|xx: int|
                    0 <= xx < x + 1 implies rgba_at(out@, 4 * #[trigger] cell(width as int, xx, y as int))
                        == v.at(xx, y as int) by {
                    if xx < x {
                        assert(rgba_at(out@, 4 * cell(width as int, xx, y as int)) == rgba_at(
                            before,
                            4 * cell(width as int, xx, y as int),
                        ));
                    }
                }
            }
            x = x + 1;
        }
        proof {
            assert(cell(width as int, width as int, y as int) == cell(width as int, 0, y + 1)) by (nonlinear_arith);
        }
        y = y + 1;
    }
    proof {
        lemma_rgba_view_by_cells(width, height, out@, v);
        assert(4 * cell(width as int, 0, height as int) == 4 * (width as int * height as int)) by (nonlinear_arith);
    }
    match RgbaGrid::from_raw(width, height, out) {
        Some(c) => Ok(c),
        None => Err(NormalizeError::OutOfBounds),
    }
}

} // verus!
