//! Pixel grids: row-major buffers of gray (one byte) or RGBA (four bytes)
//! pixels, viewed as a sequence of rows.

use vstd::prelude::*;
use crate::imaging::{grayscale, luma_view, resample};

verus! {

/// An RGBA pixel.
#[derive(Clone, Copy, Debug, PartialEq, Eq, Structural)]
pub struct Rgba {
    pub r: u8,
    pub g: u8,
    pub b: u8,
    pub a: u8,
}

/// Opaque white, the background colour.
pub open spec fn white() -> Rgba {
    Rgba { r: 255, g: 255, b: 255, a: 255 }
}

/// The mathematical picture of a grid: `rows[y][x]` is the pixel at column
/// `x` of row `y`.
pub struct GridView<P> {
    pub width: nat,
    pub height: nat,
    pub rows: Seq<Seq<P>>,
}

impl<P> GridView<P> {
    /// Every row has `width` pixels and there are `height` rows.
    pub open spec fn wf(self) -> bool {
        &&& self.rows.len() == self.height
        &&& forall|y: int| 0 <= y < self.height ==> (#[trigger] self.rows[y]).len() == self.width
    }

    /// The pixel at `(x, y)`.
    pub open spec fn at(self, x: int, y: int) -> P {
        self.rows[y][x]
    }
}

/// Position of pixel `(x, y)` in a row-major buffer of rows `width` long.
pub open spec fn cell(width: int, x: int, y: int) -> int {
    y * width + x
}

/// A row-major buffer of one byte per pixel read as a grid.
pub open spec fn gray_view(width: u32, height: u32, data: Seq<u8>) -> GridView<u8> {
    GridView {
        width: width as nat,
        height: height as nat,
        rows: Seq::new(
            height as nat,
            |y: int| Seq::new(width as nat, |x: int| data[cell(width as int, x, y)]),
        ),
    }
}

/// The four bytes at `i` of a buffer, read as one pixel.
pub open spec fn rgba_at(data: Seq<u8>, i: int) -> Rgba {
    Rgba { r: data[i], g: data[i + 1], b: data[i + 2], a: data[i + 3] }
}

/// A row-major buffer of four bytes (R, G, B, A) per pixel read as a grid.
pub open spec fn rgba_view(width: u32, height: u32, data: Seq<u8>) -> GridView<Rgba> {
    GridView {
        width: width as nat,
        height: height as nat,
        rows: Seq::new(
            height as nat,
            |y: int| Seq::new(width as nat, |x: int| rgba_at(data, 4 * cell(width as int, x, y))),
        ),
    }
}

/// A cell of a `width x height` grid lies inside its buffer.
pub proof fn lemma_cell_in_grid(width: int, height: int, x: int, y: int)
    requires
        0 <= x < width,
        0 <= y < height,
    ensures
        0 <= cell(width, x, y) < width * height,
        cell(width, x, y) + 1 <= width * height,
{
    assert(0 <= y * width + x < width * height) by (nonlinear_arith)
        requires
            0 <= x < width,
            0 <= y < height,
    ;
}

/// The product of two `u32` values fits in a `u64`.
pub proof fn lemma_u32_product(a: u32, b: u32)
    ensures
        0 <= a as int * b as int <= u64::MAX,
{
    assert(0 <= a as int * b as int <= 0xffff_fffe_0000_0001) by (nonlinear_arith)
        requires
            a <= 0xffff_ffff,
            b <= 0xffff_ffff,
    ;
}

/// A cell that comes before `(x, y)` in row-major order.
pub proof fn lemma_cell_before(width: int, xx: int, yy: int, x: int, y: int)
    requires
        0 <= xx < width,
        0 <= yy < y,
        0 <= x,
    ensures
        cell(width, xx, yy) + 1 <= cell(width, x, y),
{
    assert(yy * width + xx + 1 <= y * width + x) by (nonlinear_arith)
        requires
            0 <= xx < width,
            0 <= yy < y,
            0 <= x,
    ;
}

/// The part of a grid `width x height` in size whose top left corner is
/// `(left, top)`.
pub open spec fn crop_view<P>(v: GridView<P>, left: int, top: int, width: nat, height: nat) -> GridView<P> {
    GridView {
        width,
        height,
        rows: Seq::new(height, |y: int| Seq::new(width, |x: int| v.at(left + x, top + y))),
    }
}

/// A buffer whose cells hold the pixels of `v` is read as `v`.
pub proof fn lemma_rgba_view_by_cells(width: u32, height: u32, data: Seq<u8>, v: GridView<Rgba>)
    requires
        v.wf(),
        v.width == width,
        v.height == height,
        forall|x: int, y: int|
            0 <= x < width && 0 <= y < height ==> rgba_at(data, 4 * #[trigger] cell(width as int, x, y)) == v.at(x, y),
    ensures
        rgba_view(width, height, data) == v,
{
    let u = rgba_view(width, height, data);
    assert forall|y: int| 0 <= y < height implies u.rows[y] =~= v.rows[y] by {
        assert forall|x: int| 0 <= x < width implies u.rows[y][x] == v.rows[y][x] by {
            assert(rgba_at(data, 4 * cell(width as int, x, y)) == v.at(x, y));
        }
    }
    assert(u.rows =~= v.rows);
}

/// Channel `c` of a pixel: red, green, blue, alpha for `c` = 0, 1, 2, 3.
pub open spec fn channel(p: Rgba, c: int) -> u8 {
    if c == 0 {
        p.r
    } else if c == 1 {
        p.g
    } else if c == 2 {
        p.b
    } else {
        p.a
    }
}

/// The row-major buffer of a grid: four bytes (R, G, B, A) per pixel.
pub open spec fn rgba_bytes(v: GridView<Rgba>) -> Seq<u8> {
    Seq::new(
        4 * (v.width * v.height),
        |i: int| channel(v.at((i / 4) % (v.width as int), (i / 4) / (v.width as int)), i % 4),
    )
}

/// A buffer of `4 * width * height` bytes is the buffer of the grid it
/// reads as.
pub proof fn lemma_rgba_bytes_of_view(width: u32, height: u32, s: Seq<u8>)
    requires
        s.len() == 4 * (width as int * height as int),
    ensures
        rgba_bytes(rgba_view(width, height, s)) == s,
{
    let w = width as int;
    let h = height as int;
    let v = rgba_view(width, height, s);
    let t = rgba_bytes(v);
    assert forall|i: int| 0 <= i < s.len() implies t[i] == s[i] by {
        let k = i / 4;
        let c = i % 4;
        let y = k / w;
        let x = k % w;
        assert(0 < w) by (nonlinear_arith)
            requires
                0 <= i < 4 * (w * h),
                0 <= w,
                0 <= h,
        ;
        vstd::arithmetic::div_mod::lemma_fundamental_div_mod(k, w);
        vstd::arithmetic::div_mod::lemma_mod_bound(k, w);
        assert(0 <= y < h) by (nonlinear_arith)
            requires
                k == w * y + x,
                0 <= x < w,
                0 <= k < w * h,
        ;
        assert(i == 4 * cell(w, x, y) + c) by (nonlinear_arith)
            requires
                k == w * y + x,
                i == 4 * k + c,
        ;
        assert(v.at(x, y) == rgba_at(s, 4 * cell(w, x, y)));
    }
    assert(t =~= s);
}

/// Appends the four bytes of `p`.
pub(crate) fn push_pixel(out: &mut Vec<u8>, p: Rgba)
    ensures
        final(out)@ == old(out)@ + seq![p.r, p.g, p.b, p.a],
        final(out)@.len() == old(out)@.len() + 4,
        rgba_at(final(out)@, old(out)@.len() as int) == p,
        forall|i: int| 0 <= i && i + 3 < old(out)@.len() ==> #[trigger] rgba_at(final(out)@, i) == rgba_at(old(out)@, i),
{
    out.push(p.r);
    out.push(p.g);
    out.push(p.b);
    out.push(p.a);
    assert(out@ =~= old(out)@ + seq![p.r, p.g, p.b, p.a]);
}

/// A grid of luminance values, one byte per pixel.
#[derive(Debug)]
pub struct GrayGrid {
    width: u32,
    height: u32,
    data: Vec<u8>,
}

impl GrayGrid {
    #[verifier::type_invariant]
    spec fn inv(self) -> bool {
        self.data@.len() == self.width as int * self.height as int
    }

    /// Takes a row-major buffer of `width * height` luminance bytes; `None`
    /// when the length does not match.
    pub fn from_raw(width: u32, height: u32, data: Vec<u8>) -> (r: Option<GrayGrid>)
        ensures
            r is Some <==> data@.len() == width as int * height as int,
            r matches Some(g) ==> g@ == gray_view(width, height, data@),
    {
        proof {
            lemma_u32_product(width, height);
        }
        let n: u64 = width as u64 * height as u64;
        if data.len() as u64 == n {
            Some(GrayGrid { width, height, data })
        } else {
            None
        }
    }

    pub fn width(&self) -> (r: u32)
        ensures
            r == self@.width,
    {
        self.width
    }

    pub fn height(&self) -> (r: u32)
        ensures
            r == self@.height,
    {
        self.height
    }

    /// The view is a well-formed grid whose sides fit in a `u32`.
    pub proof fn lemma_view_bounds(self)
        ensures
            self@.wf(),
            self@.width <= u32::MAX,
            self@.height <= u32::MAX,
    {
    }

    /// The luminance at column `x` of row `y`.
    pub fn get(&self, x: u32, y: u32) -> (r: u8)
        requires
            x < self@.width,
            y < self@.height,
        ensures
            r == self@.at(x as int, y as int),
    {
        proof {
            use_type_invariant(self);
            lemma_cell_in_grid(self.width as int, self.height as int, x as int, y as int);
            assert(self.data.len() == self.data@.len());
        }
        let i: usize = y as usize * self.width as usize + x as usize;
        self.data[i]
    }
}

impl View for GrayGrid {
    type V = GridView<u8>;

    closed spec fn view(&self) -> GridView<u8> {
        gray_view(self.width, self.height, self.data@)
    }
}

} // verus!

verus! {

/// A grid of RGBA pixels, four bytes per pixel.
#[derive(Debug)]
pub struct RgbaGrid {
    width: u32,
    height: u32,
    data: Vec<u8>,
}

impl RgbaGrid {
    #[verifier::type_invariant]
    spec fn inv(self) -> bool {
        self.data@.len() == 4 * (self.width as int * self.height as int)
    }

    /// Takes a row-major buffer of `4 * width * height` bytes (R, G, B, A
    /// per pixel); `None` when the length does not match.
    pub fn from_raw(width: u32, height: u32, data: Vec<u8>) -> (r: Option<RgbaGrid>)
        ensures
            r is Some <==> data@.len() == 4 * (width as int * height as int),
            r matches Some(g) ==> g@ == rgba_view(width, height, data@),
    {
        proof {
            lemma_u32_product(width, height);
        }
        let n: u128 = 4 * (width as u128 * height as u128);
        if data.len() as u128 == n {
            Some(RgbaGrid { width, height, data })
        } else {
            None
        }
    }

    /// The row-major buffer of the grid.
    pub fn into_raw(self) -> (r: Vec<u8>)
        ensures
            r@ == rgba_bytes(self@),
            r@.len() == 4 * (self@.width * self@.height),
            rgba_view(self@.width as u32, self@.height as u32, r@) == self@,
    {
        proof {
            use_type_invariant(&self);
            lemma_rgba_bytes_of_view(self.width, self.height, self.data@);
        }
        self.data
    }

    pub fn width(&self) -> (r: u32)
        ensures
            r == self@.width,
    {
        self.width
    }

    pub fn height(&self) -> (r: u32)
        ensures
            r == self@.height,
    {
        self.height
    }

    /// A borrow of the row-major buffer.
    pub fn as_raw(&self) -> (r: &Vec<u8>)
        ensures
            r@ == rgba_bytes(self@),
            r@.len() == 4 * (self@.width * self@.height),
            rgba_view(self@.width as u32, self@.height as u32, r@) == self@,
    {
        proof {
            use_type_invariant(self);
            lemma_rgba_bytes_of_view(self.width, self.height, self.data@);
        }
        &self.data
    }

    /// The pixel at column `x` of row `y`.
    pub fn pixel(&self, x: u32, y: u32) -> (r: Rgba)
        requires
            x < self@.width,
            y < self@.height,
        ensures
            r == self@.at(x as int, y as int),
    {
        proof {
            use_type_invariant(self);
            lemma_cell_in_grid(self.width as int, self.height as int, x as int, y as int);
            assert(self.data.len() == self.data@.len());
        }
        let i: usize = 4 * (y as usize * self.width as usize + x as usize);
        Rgba { r: self.data[i], g: self.data[i + 1], b: self.data[i + 2], a: self.data[i + 3] }
    }

    /// The luminance grid of the image.
    pub fn to_luma(&self) -> (r: GrayGrid)
        ensures
            r@ == luma_view(self@),
    {
        proof {
            use_type_invariant(self);
        }
        if self.width == 0 || self.height == 0 {
            let r = GrayGrid { width: self.width, height: self.height, data: Vec::new() };
            proof {
                assert(r@.rows =~~= luma_view(self@).rows);
            }
            return r;
        }
        let data = grayscale(self.width, self.height, &self.data);
        GrayGrid { width: self.width, height: self.height, data }
    }

    /// The image resampled to `new_width x new_height` with a Gaussian
    /// filter. Only the size of the result is known: the pixels come from
    /// floating-point filtering.
    pub fn resize(&self, new_width: u32, new_height: u32) -> (r: RgbaGrid)
        requires
            self@.width >= 1,
            self@.height >= 1,
            new_width >= 1,
            new_height >= 1,
            16 * (self@.width * new_height) <= isize::MAX,
            4 * (new_width * new_height) <= isize::MAX,
        ensures
            r@.width == new_width,
            r@.height == new_height,
    {
        proof {
            use_type_invariant(self);
        }
        let data = resample(self.width, self.height, &self.data, new_width, new_height);
        RgbaGrid { width: new_width, height: new_height, data }
    }

    /// A copy of the `width x height` region whose top left corner is
    /// `(left, top)`.
    pub fn crop(&self, left: u32, top: u32, width: u32, height: u32) -> (r: RgbaGrid)
        requires
            left + width <= self@.width,
            top + height <= self@.height,
        ensures
            r@ == crop_view(self@, left as int, top as int, width as nat, height as nat),
    {
        let mut out: Vec<u8> = Vec::new();
        let mut y: u32 = 0;
        while y < height
            invariant
                y <= height,
                left + width <= self@.width,
                top + height <= self@.height,
                out@.len() == 4 * cell(width as int, 0, y as int),
                forall|xx: int, yy: int|
                    0 <= xx < width && 0 <= yy < y ==> rgba_at(out@, 4 * #[trigger] cell(width as int, xx, yy))
                        == self@.at(left + xx, top + yy),
            decreases height - y,
        {
            let mut x: u32 = 0;
            while x < width
                invariant
                    x <= width,
                    y < height,
                    left + width <= self@.width,
                    top + height <= self@.height,
                    out@.len() == 4 * cell(width as int, x as int, y as int),
                    forall|xx: int, yy: int|
                        0 <= xx < width && 0 <= yy < y ==> rgba_at(out@, 4 * #[trigger] cell(width as int, xx, yy))
                            == self@.at(left + xx, top + yy),
                    forall|xx: int|
                        0 <= xx < x ==> rgba_at(out@, 4 * #[trigger] cell(width as int, xx, y as int))
                            == self@.at(left + xx, top + y),
                decreases width - x,
            {
                let p = self.pixel(left + x, top + y);
                let ghost before = out@;
                push_pixel(&mut out, p);
                proof {
                    assert forall|xx: int, yy: int|
                        0 <= xx < width && 0 <= yy < y implies rgba_at(out@, 4 * #[trigger] cell(width as int, xx, yy))
                            == self@.at(left + xx, top + yy) by {
                        lemma_cell_before(width as int, xx, yy, x as int, y as int);
                        assert(rgba_at(out@, 4 * cell(width as int, xx, yy)) == rgba_at(before, 4 * cell(width as int, xx, yy)));
                    }
                    assert forall|xx: int|
                        0 <= xx < x + 1 implies rgba_at(out@, 4 * #[trigger] cell(width as int, xx, y as int))
                            == self@.at(left + xx, top + y) by {
                        if xx < x {
                            assert(rgba_at(out@, 4 * cell(width as int, xx, y as int)) == rgba_at(before, 4 * cell(width as int, xx, y as int)));
                        }
                    }
                }
                x = x + 1;
            }
            proof {
                assert(cell(width as int, width as int, y as int) == cell(width as int, 0, y + 1)) by (nonlinear_arith);
            }
            y = y + 1;
        }
        let ghost v = crop_view(self@, left as int, top as int, width as nat, height as nat);
        proof {
            lemma_rgba_view_by_cells(width, height, out@, v);
            assert(4 * cell(width as int, 0, height as int) == 4 * (width as int * height as int)) by (nonlinear_arith);
        }
        RgbaGrid { width, height, data: out }
    }
}

impl View for RgbaGrid {
    type V = GridView<Rgba>;

    closed spec fn view(&self) -> GridView<Rgba> {
        rgba_view(self.width, self.height, self.data@)
    }
}

} // verus!
