//! Foreground detection: the tight rectangle around every pixel darker than
//! the background threshold.

use vstd::prelude::*;
use crate::grid::{GrayGrid, GridView};

verus! {

/// A half-open rectangle `[left, right) x [top, bottom)` of pixels.
#[derive(Clone, Copy, Debug, PartialEq, Eq, Structural)]
pub struct BoundingBox {
    pub left: u32,
    pub top: u32,
    pub right: u32,
    pub bottom: u32,
}

/// The outcome of a detection: the tight box around the foreground, or the
/// statement that there is no foreground at all.
#[derive(Clone, Copy, Debug, PartialEq, Eq, Structural)]
pub enum Detection {
    Found(BoundingBox),
    Empty,
}

impl BoundingBox {
    /// `0 <= left <= right <= width` and `0 <= top <= bottom <= height`.
    pub open spec fn fits(self, width: nat, height: nat) -> bool {
        self.left <= self.right <= width && self.top <= self.bottom <= height
    }

    /// `(x, y)` lies inside the box.
    pub open spec fn contains(self, x: int, y: int) -> bool {
        self.left <= x < self.right && self.top <= y < self.bottom
    }

    /// Every pixel of `self` lies in `outer`.
    pub open spec fn within(self, outer: BoundingBox) -> bool {
        outer.left <= self.left && self.right <= outer.right && outer.top <= self.top
            && self.bottom <= outer.bottom
    }

    /// The box `(0, 0, width, height)`.
    pub open spec fn full(width: nat, height: nat) -> BoundingBox {
        BoundingBox { left: 0, top: 0, right: width as u32, bottom: height as u32 }
    }
}

/// A pixel is foreground when its luminance is below `255 - tolerance`.
pub open spec fn is_foreground(g: GridView<u8>, tolerance: u8, x: int, y: int) -> bool {
    0 <= x < g.width && 0 <= y < g.height && g.at(x, y) < 255 - tolerance
}

pub open spec fn has_foreground(g: GridView<u8>, tolerance: u8) -> bool {
    exists|x: int, y: int| is_foreground(g, tolerance, x, y)
}

/// The box holds every foreground pixel, and each of its four edges touches
/// one.
pub open spec fn is_tight_box(g: GridView<u8>, tolerance: u8, b: BoundingBox) -> bool {
    &&& forall|x: int, y: int| is_foreground(g, tolerance, x, y) ==> b.contains(x, y)
    &&& exists|y: int| is_foreground(g, tolerance, b.left as int, y)
    &&& exists|y: int| #[trigger] is_foreground(g, tolerance, b.right - 1, y)
    &&& exists|x: int| is_foreground(g, tolerance, x, b.top as int)
    &&& exists|x: int| #[trigger] is_foreground(g, tolerance, x, b.bottom - 1)
}

/// What detection yields on a luminance grid.
pub open spec fn detect_spec(g: GridView<u8>, tolerance: u8) -> Detection {
    if has_foreground(g, tolerance) {
        Detection::Found(choose|b: BoundingBox| is_tight_box(g, tolerance, b))
    } else {
        Detection::Empty
    }
}

/// The box reported for a luminance grid: the tight box, or the full extent
/// when there is nothing to crop.
pub open spec fn boundbox_spec(g: GridView<u8>, tolerance: u8) -> BoundingBox {
    match detect_spec(g, tolerance) {
        Detection::Found(b) => b,
        Detection::Empty => BoundingBox::full(g.width, g.height),
    }
}

/// There is at most one tight box.
pub proof fn lemma_tight_box_unique(g: GridView<u8>, tolerance: u8, b1: BoundingBox, b2: BoundingBox)
    requires
        is_tight_box(g, tolerance, b1),
        is_tight_box(g, tolerance, b2),
    ensures
        b1 == b2,
{
    let y1 = choose|y: int| is_foreground(g, tolerance, b1.left as int, y);
    let y2 = choose|y: int| is_foreground(g, tolerance, b2.left as int, y);
    assert(b2.contains(b1.left as int, y1));
    assert(b1.contains(b2.left as int, y2));
    let y3 = choose|y: int| #[trigger] is_foreground(g, tolerance, b1.right - 1, y);
    let y4 = choose|y: int| #[trigger] is_foreground(g, tolerance, b2.right - 1, y);
    assert(b2.contains(b1.right - 1, y3));
    assert(b1.contains(b2.right - 1, y4));
    let x1 = choose|x: int| is_foreground(g, tolerance, x, b1.top as int);
    let x2 = choose|x: int| is_foreground(g, tolerance, x, b2.top as int);
    assert(b2.contains(x1, b1.top as int));
    assert(b1.contains(x2, b2.top as int));
    let x3 = choose|x: int| #[trigger] is_foreground(g, tolerance, x, b1.bottom - 1);
    let x4 = choose|x: int| #[trigger] is_foreground(g, tolerance, x, b2.bottom - 1);
    assert(b2.contains(x3, b1.bottom - 1));
    assert(b1.contains(x4, b2.bottom - 1));
}

/// A tight box is what detection yields.
pub proof fn lemma_tight_box_detected(g: GridView<u8>, tolerance: u8, b: BoundingBox)
    requires
        is_tight_box(g, tolerance, b),
    ensures
        detect_spec(g, tolerance) == Detection::Found(b),
{
    let y = choose|y: int| is_foreground(g, tolerance, b.left as int, y);
    assert(is_foreground(g, tolerance, b.left as int, y));
    let c = choose|c: BoundingBox| is_tight_box(g, tolerance, c);
    lemma_tight_box_unique(g, tolerance, b, c);
}

/// The least value in `[0, n)` that satisfies `p`, given that there is one.
proof fn lemma_least(p: spec_fn(int) -> bool, n: int) -> (m: int)
    requires
        exists|x: int| 0 <= x < n && #[trigger] p(x),
    ensures
        0 <= m < n,
        p(m),
        forall|x: int| 0 <= x < n && #[trigger] p(x) ==> m <= x,
    decreases n,
{
    if exists|x: int| 0 <= x < n - 1 && #[trigger] p(x) {
        lemma_least(p, n - 1)
    } else {
        n - 1
    }
}

/// The greatest value in `[0, n)` that satisfies `p`, given that there is one.
proof fn lemma_greatest(p: spec_fn(int) -> bool, n: int) -> (m: int)
    requires
        exists|x: int| 0 <= x < n && #[trigger] p(x),
    ensures
        0 <= m < n,
        p(m),
        forall|x: int| 0 <= x < n && #[trigger] p(x) ==> x <= m,
    decreases n,
{
    if p(n - 1) {
        n - 1
    } else {
        lemma_greatest(p, n - 1)
    }
}

/// Where there is foreground, detection finds a tight box, and the box fits
/// in the grid.
pub proof fn lemma_tight_box_exists(g: GridView<u8>, tolerance: u8)
    requires
        has_foreground(g, tolerance),
        g.width <= u32::MAX,
        g.height <= u32::MAX,
    ensures
        detect_spec(g, tolerance) matches Detection::Found(b) && is_tight_box(g, tolerance, b) && b.fits(
            g.width,
            g.height,
        ),
{
    let col = |x: int| exists|y: int| is_foreground(g, tolerance, x, y);
    let row = |y: int| exists|x: int| is_foreground(g, tolerance, x, y);
    let (x0, y0) = choose|x: int, y: int| is_foreground(g, tolerance, x, y);
    assert(col(x0));
    assert(row(y0));
    let l = lemma_least(col, g.width as int);
    let r = lemma_greatest(col, g.width as int);
    let t = lemma_least(row, g.height as int);
    let bt = lemma_greatest(row, g.height as int);
    let b = BoundingBox { left: l as u32, top: t as u32, right: (r + 1) as u32, bottom: (bt + 1) as u32 };
    assert forall|x: int, y: int| is_foreground(g, tolerance, x, y) implies b.contains(x, y) by {
        assert(col(x));
        assert(row(y));
    }
    assert(col(l));
    assert(col(r));
    assert(row(t));
    assert(row(bt));
    assert(l <= x0 <= r);
    assert(b.left == l && b.right - 1 == r && b.top == t && b.bottom - 1 == bt);
    assert(exists|y: int| is_foreground(g, tolerance, b.left as int, y));
    assert(exists|y: int| #[trigger] is_foreground(g, tolerance, b.right - 1, y));
    assert(exists|x: int| is_foreground(g, tolerance, x, b.top as int));
    assert(exists|x: int| #[trigger] is_foreground(g, tolerance, x, b.bottom - 1));
    lemma_tight_box_detected(g, tolerance, b);
}

/// A grid whose every pixel is pure white has no foreground at any
/// tolerance, and its box is the full extent `(0, 0, width, height)`.
pub proof fn lemma_blank_grid_full_box(grid: GrayGrid, tolerance: u8)
    requires
        forall|x: int, y: int|
            0 <= x < grid@.width && 0 <= y < grid@.height ==> #[trigger] grid@.at(x, y) == 255,
    ensures
        detect_spec(grid@, tolerance) == Detection::Empty,
        boundbox_spec(grid@, tolerance) == BoundingBox::full(grid@.width, grid@.height),
{
    assert(!has_foreground(grid@, tolerance)) by {
        assert forall|x: int, y: int| !is_foreground(grid@, tolerance, x, y) by {
            if 0 <= x < grid@.width && 0 <= y < grid@.height {
                assert(grid@.at(x, y) == 255);
            }
        }
    }
}

/// With no tolerance, a grid whose non-white pixels form exactly one
/// non-empty rectangle is detected as that rectangle.
pub proof fn lemma_single_block_detected(grid: GrayGrid, block: BoundingBox)
    requires
        block.left < block.right <= grid@.width,
        block.top < block.bottom <= grid@.height,
        forall|x: int, y: int|
            0 <= x < grid@.width && 0 <= y < grid@.height ==> (#[trigger] grid@.at(x, y) < 255
                <==> block.contains(x, y)),
    ensures
        detect_spec(grid@, 0) == Detection::Found(block),
        boundbox_spec(grid@, 0) == block,
{
    let g = grid@;
    assert(g.at(block.left as int, block.top as int) < 255);
    assert(g.at(block.right - 1, block.bottom - 1) < 255);
    assert(is_foreground(g, 0, block.left as int, block.top as int));
    assert(is_foreground(g, 0, block.right - 1, block.bottom - 1));
    assert(is_foreground(g, 0, block.right - 1, block.top as int));
    assert(is_foreground(g, 0, block.left as int, block.bottom - 1));
    assert forall|x: int, y: int| is_foreground(g, 0, x, y) implies block.contains(x, y) by {
        assert(g.at(x, y) < 255);
    }
    lemma_tight_box_detected(g, 0, block);
}

/// Raising the tolerance never grows the box: whatever is foreground at the
/// higher tolerance is foreground at the lower one, so the box found at the
/// higher tolerance lies within the box found at the lower one.
pub proof fn lemma_tolerance_monotone(grid: GrayGrid, low: u8, high: u8)
    requires
        low <= high,
        has_foreground(grid@, high),
    ensures
        has_foreground(grid@, low),
        detect_spec(grid@, high) matches Detection::Found(bh) && detect_spec(grid@, low) matches Detection::Found(bl)
            && bh.within(bl),
        boundbox_spec(grid@, high).within(boundbox_spec(grid@, low)),
{
    let g = grid@;
    grid.lemma_view_bounds();
    let (x0, y0) = choose|x: int, y: int| is_foreground(g, high, x, y);
    assert(is_foreground(g, low, x0, y0));
    lemma_tight_box_exists(g, high);
    lemma_tight_box_exists(g, low);
    let bh = boundbox_spec(g, high);
    let bl = boundbox_spec(g, low);
    let yl = choose|y: int| is_foreground(g, high, bh.left as int, y);
    assert(is_foreground(g, low, bh.left as int, yl));
    let yr = choose|y: int| #[trigger] is_foreground(g, high, bh.right - 1, y);
    assert(is_foreground(g, low, bh.right - 1, yr));
    let xt = choose|x: int| is_foreground(g, high, x, bh.top as int);
    assert(is_foreground(g, low, xt, bh.top as int));
    let xb = choose|x: int| #[trigger] is_foreground(g, high, x, bh.bottom - 1);
    assert(is_foreground(g, low, xb, bh.bottom - 1));
    assert(is_tight_box(g, low, bl));
    assert(bl.contains(bh.left as int, yl));
    assert(bl.contains(bh.right - 1, yr));
    assert(bl.contains(xt, bh.top as int));
    assert(bl.contains(xb, bh.bottom - 1));
}

/// Scans the grid once and returns the tight box around the pixels whose
/// luminance is below `255 - tolerance`, or `Empty` when there are none.
pub fn detect_foreground(grid: &GrayGrid, tolerance: u8) -> (r: Detection)
    ensures
        r == detect_spec(grid@, tolerance),
        r is Empty <==> !has_foreground(grid@, tolerance),
        r matches Detection::Found(b) ==> is_tight_box(grid@, tolerance, b) && b.fits(grid@.width, grid@.height),
        r matches Detection::Found(b) ==> b.left < b.right && b.top < b.bottom,
{
    let ghost g = grid@;
    let w = grid.width();
    let h = grid.height();
    let threshold: u8 = 255 - tolerance;
    let mut found = false;
    let mut left: u32 = 0;
    let mut right: u32 = 0;
    let mut top: u32 = 0;
    let mut bottom: u32 = 0;
    let ghost mut left_y: int = 0;
    let ghost mut right_y: int = 0;
    let ghost mut top_x: int = 0;
    let ghost mut bottom_x: int = 0;
    let mut y: u32 = 0;
    while y < h
        invariant
            g == grid@,
            w == g.width,
            h == g.height,
            threshold == 255 - tolerance,
            y <= h,
            found ==> is_foreground(g, tolerance, left as int, left_y),
            found ==> is_foreground(g, tolerance, right as int, right_y),
            found ==> is_foreground(g, tolerance, top_x, top as int),
            found ==> is_foreground(g, tolerance, bottom_x, bottom as int),
            forall|xx: int, yy: int|
                yy < y && #[trigger] is_foreground(g, tolerance, xx, yy) ==> found && left <= xx
                    <= right && top <= yy <= bottom,
        decreases h - y,
    {
        let mut x: u32 = 0;
        while x < w
            invariant
                g == grid@,
                w == g.width,
                h == g.height,
                threshold == 255 - tolerance,
                y < h,
                x <= w,
                found ==> is_foreground(g, tolerance, left as int, left_y),
                found ==> is_foreground(g, tolerance, right as int, right_y),
                found ==> is_foreground(g, tolerance, top_x, top as int),
                found ==> is_foreground(g, tolerance, bottom_x, bottom as int),
                forall|xx: int, yy: int|
                    (yy < y || (yy == y && xx < x)) && #[trigger] is_foreground(g, tolerance, xx, yy)
                        ==> found && left <= xx <= right && top <= yy <= bottom,
            decreases w - x,
        {
            if grid.get(x, y) < threshold {
                if !found {
                    found = true;
                    left = x;
                    right = x;
                    top = y;
                    bottom = y;
                    proof {
                        left_y = y as int;
                        right_y = y as int;
                        top_x = x as int;
                        bottom_x = x as int;
                    }
                } else {
                    if x < left {
                        left = x;
                        proof {
                            left_y = y as int;
                        }
                    }
                    if x > right {
                        right = x;
                        proof {
                            right_y = y as int;
                        }
                    }
                    if y < top {
                        top = y;
                        proof {
                            top_x = x as int;
                        }
                    }
                    if y > bottom {
                        bottom = y;
                        proof {
                            bottom_x = x as int;
                        }
                    }
                }
            }
            x = x + 1;
        }
        y = y + 1;
    }
    if found {
        let b = BoundingBox { left, top, right: right + 1, bottom: bottom + 1 };
        proof {
            assert(is_foreground(g, tolerance, b.left as int, left_y));
            assert(is_foreground(g, tolerance, b.right - 1, right_y));
            assert(is_foreground(g, tolerance, top_x, b.top as int));
            assert(is_foreground(g, tolerance, bottom_x, b.bottom - 1));
            lemma_tight_box_detected(g, tolerance, b);
        }
        Detection::Found(b)
    } else {
        Detection::Empty
    }
}

/// The half-open box around the foreground of the grid; the full extent
/// `(0, 0, width, height)` when no pixel is foreground.
pub fn image_boundbox(grid: &GrayGrid, tolerance: u8) -> (r: BoundingBox)
    ensures
        r == boundbox_spec(grid@, tolerance),
        r.fits(grid@.width, grid@.height),
        forall|x: int, y: int| is_foreground(grid@, tolerance, x, y) ==> r.contains(x, y),
        !has_foreground(grid@, tolerance) ==> r == BoundingBox::full(grid@.width, grid@.height),
{
    match detect_foreground(grid, tolerance) {
        Detection::Found(b) => b,
        Detection::Empty => BoundingBox { left: 0, top: 0, right: grid.width(), bottom: grid.height() },
    }
}

} // verus!
