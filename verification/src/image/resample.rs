//! Resizing and translating images.
//!
//! Source coordinates are fractions. They are kept exact, as a whole part and
//! a remainder over the size of the destination, and the only rounding is the
//! truncation of each interpolated channel.

use crate::grid::shape_fits;
use crate::image::{Image, Raster};
use crate::number::model::{from_whole, product, rounded_away, Double};
use crate::number::Number;
use crate::pixel::Pixel;
use vstd::prelude::*;

verus! {

/// The source coordinate of the destination coordinate `dest` under
/// nearest-neighbour sampling: the floor of `dest * src_dim / dest_dim`.
pub open spec fn nearest_source(dest: int, src_dim: int, dest_dim: int) -> int
    recommends
        dest_dim > 0,
{
    (dest * src_dim) / dest_dim
}

/// The cell `(x, y)` of `src` resized to `width` by `height` by
/// nearest-neighbour sampling: a copy of the source pixel, or transparent
/// black where the source coordinate lies outside `src`.
pub open spec fn nearest_cell(src: Raster, width: nat, height: nat, x: int, y: int) -> Pixel {
    src.at_or_clear(
        nearest_source(x, src.width as int, width as int),
        nearest_source(y, src.height as int, height as int),
    )
}

/// `src` resized to `width` by `height` by nearest-neighbour sampling.
pub open spec fn resized_nearest(src: Raster, width: nat, height: nat) -> Raster {
    Raster::from_fn(width, height, |x: int, y: int| nearest_cell(src, width, height, x, y))
}

/// The whole part of the fractional source coordinate `dest * src_dim /
/// dest_dim`: the first of the two neighbours along one axis.
pub open spec fn lower_neighbour(dest: int, src_dim: int, dest_dim: int) -> int
    recommends
        dest_dim > 0,
{
    (dest * src_dim) / dest_dim
}

/// The fractional part of the source coordinate, as a numerator over
/// `dest_dim`.
pub open spec fn fraction(dest: int, src_dim: int, dest_dim: int) -> int
    recommends
        dest_dim > 0,
{
    (dest * src_dim) % dest_dim
}

/// The second neighbour along one axis: the source coordinate rounded up, but
/// no further than the last coordinate of the source.
pub open spec fn upper_neighbour(dest: int, src_dim: int, dest_dim: int) -> int
    recommends
        dest_dim > 0,
{
    let up = if fraction(dest, src_dim, dest_dim) > 0 {
        lower_neighbour(dest, src_dim, dest_dim) + 1
    } else {
        lower_neighbour(dest, src_dim, dest_dim)
    };
    if up > src_dim - 1 {
        if src_dim >= 1 {
            src_dim - 1
        } else {
            0
        }
    } else {
        up
    }
}

/// One channel interpolated between the four neighbours `a` (top left), `b`
/// (top right), `c` (bottom left) and `d` (bottom right), with the horizontal
/// fraction `fx / w` and the vertical fraction `fy / h`, truncated.
pub open spec fn interpolated(
    a: int,
    b: int,
    c: int,
    d: int,
    fx: int,
    w: int,
    fy: int,
    h: int,
) -> int
    recommends
        w > 0,
        h > 0,
{
    (a * (w - fx) * (h - fy) + b * fx * (h - fy) + c * (w - fx) * fy + d * fx * fy) / (w * h)
}

/// A value clamped to the range of a channel.
pub open spec fn clamped(v: int) -> int {
    if v < 0 {
        0
    } else if v > 255 {
        255
    } else {
        v
    }
}

/// The cell `(x, y)` of `src` resized to `width` by `height` by bilinear
/// interpolation. Neighbours outside `src` count as transparent black.
pub open spec fn bilinear_cell(src: Raster, width: nat, height: nat, x: int, y: int) -> Pixel {
    let sw = src.width as int;
    let sh = src.height as int;
    let w = width as int;
    let h = height as int;
    let x1 = lower_neighbour(x, sw, w);
    let x2 = upper_neighbour(x, sw, w);
    let y1 = lower_neighbour(y, sh, h);
    let y2 = upper_neighbour(y, sh, h);
    let fx = fraction(x, sw, w);
    let fy = fraction(y, sh, h);
    let a = src.at_or_clear(x1, y1);
    let b = src.at_or_clear(x2, y1);
    let c = src.at_or_clear(x1, y2);
    let d = src.at_or_clear(x2, y2);
    Pixel {
        r: clamped(interpolated(a.r as int, b.r as int, c.r as int, d.r as int, fx, w, fy, h)) as u8,
        g: clamped(interpolated(a.g as int, b.g as int, c.g as int, d.g as int, fx, w, fy, h)) as u8,
        b: clamped(interpolated(a.b as int, b.b as int, c.b as int, d.b as int, fx, w, fy, h)) as u8,
        a: clamped(interpolated(a.a as int, b.a as int, c.a as int, d.a as int, fx, w, fy, h)) as u8,
    }
}

/// `src` resized to `width` by `height` by bilinear interpolation.
pub open spec fn resized_bilinear(src: Raster, width: nat, height: nat) -> Raster {
    Raster::from_fn(width, height, |x: int, y: int| bilinear_cell(src, width, height, x, y))
}

/// The absolute value of an offset.
pub open spec fn magnitude(d: int) -> nat {
    if d < 0 {
        (-d) as nat
    } else {
        d as nat
    }
}

/// The cell `(x, y)` of `src` translated by `(dx, dy)`: the source pixel that
/// the translation moves there, or transparent black where there is none.
pub open spec fn shifted_cell(src: Raster, dx: int, dy: int, x: int, y: int) -> Pixel {
    src.at_or_clear(x - dx, y - dy)
}

/// `src` translated by `(dx, dy)`. The image grows by the size of the offset
/// along each axis, and every source pixel `(x, y)` lands at `(x + dx, y +
/// dy)` where that lies inside the new image.
pub open spec fn shifted(src: Raster, dx: int, dy: int) -> Raster {
    Raster::from_fn(
        src.width + magnitude(dx),
        src.height + magnitude(dy),
        |x: int, y: int| shifted_cell(src, dx, dy, x, y),
    )
}

/// The offset of a translation along one axis, in pixels: the number itself
/// rounded to the nearest whole number, or, if `fract` is set, the number times
/// the size of the image along that axis, rounded. Half-way cases round away
/// from zero.
pub open spec fn shift_offset(delta: Double, size: nat, fract: bool) -> int {
    if fract {
        rounded_away(product(delta, from_whole(size as int)), isize::MIN as int, isize::MAX as int)
    } else {
        rounded_away(delta, isize::MIN as int, isize::MAX as int)
    }
}

/// Whether the image that a translation by `(dx, dy)` gives can be held in
/// memory.
pub open spec fn shift_fits(src: Raster, dx: int, dy: int) -> bool {
    &&& src.width + magnitude(dx) <= usize::MAX
    &&& src.height + magnitude(dy) <= usize::MAX
    &&& shape_fits((src.height + magnitude(dy)) as usize, (src.width + magnitude(dx)) as usize)
}

/// What a translation does: the image grows by the size of the offset along
/// each axis, every source pixel lands at its coordinates plus the offset
/// where that lies inside the new image, and every cell that no source pixel
/// lands on is transparent black.
pub proof fn lemma_shifted_cells(src: Raster, dx: int, dy: int)
    requires
        src.wf(),
    ensures
        shifted(src, dx, dy).wf(),
        shifted(src, dx, dy).width == src.width + magnitude(dx),
        shifted(src, dx, dy).height == src.height + magnitude(dy),
        forall|x: int, y: int|
            src.contains(x, y) && shifted(src, dx, dy).contains(x + dx, y + dy) ==> #[trigger] shifted(
                src,
                dx,
                dy,
            ).at(x + dx, y + dy) == src.at(x, y),
        forall|x: int, y: int|
            shifted(src, dx, dy).contains(x, y) && !src.contains(x - dx, y - dy) ==> #[trigger] shifted(
                src,
                dx,
                dy,
            ).at(x, y) == Pixel::clear(),
{
    let out = shifted(src, dx, dy);
    Raster::lemma_from_fn(
        src.width + magnitude(dx),
        src.height + magnitude(dy),
        |x: int, y: int| shifted_cell(src, dx, dy, x, y),
    );
    assert forall|x: int, y: int| src.contains(x, y) && out.contains(x + dx, y + dy) implies #[trigger] out.at(
        x + dx,
        y + dy,
    ) == src.at(x, y) by {
        assert(out.at(x + dx, y + dy) == shifted_cell(src, dx, dy, x + dx, y + dy));
    }
    assert forall|x: int, y: int| out.contains(x, y) && !src.contains(x - dx, y - dy) implies #[trigger] out.at(
        x,
        y,
    ) == Pixel::clear() by {
        assert(out.at(x, y) == shifted_cell(src, dx, dy, x, y));
    }
}

/// The product of two sizes fits in 128 bits.
proof fn lemma_product_fits(a: usize, b: usize)
    ensures
        0 <= a * b <= u128::MAX,
{
    assert(0 <= a * b <= 0xffff_ffff_ffff_ffff * 0xffff_ffff_ffff_ffff) by (nonlinear_arith)
        requires
            0 <= a <= 0xffff_ffff_ffff_ffff,
            0 <= b <= 0xffff_ffff_ffff_ffff,
    ;
}

/// A source coordinate never lies beyond the size of the source.
proof fn lemma_source_bound(dest: int, src_dim: int, dest_dim: int)
    requires
        0 <= dest < dest_dim,
        0 <= src_dim,
    ensures
        0 <= (dest * src_dim) / dest_dim <= src_dim,
        src_dim > 0 ==> (dest * src_dim) / dest_dim < src_dim,
        0 <= (dest * src_dim) % dest_dim < dest_dim,
        0 <= dest * src_dim <= dest_dim * src_dim,
{
    assert(0 <= dest * src_dim <= dest_dim * src_dim) by (nonlinear_arith)
        requires
            0 <= dest < dest_dim,
            0 <= src_dim,
    ;
    assert(0 <= (dest * src_dim) / dest_dim <= src_dim) by (nonlinear_arith)
        requires
            0 <= dest * src_dim <= dest_dim * src_dim,
            dest_dim > 0,
    ;
    if src_dim > 0 {
        assert(dest * src_dim < dest_dim * src_dim) by (nonlinear_arith)
            requires
                0 <= dest < dest_dim,
                0 < src_dim,
        ;
        assert((dest * src_dim) / dest_dim < src_dim) by (nonlinear_arith)
            requires
                0 <= dest * src_dim < dest_dim * src_dim,
                dest_dim > 0,
        ;
    }
    assert(0 <= (dest * src_dim) % dest_dim < dest_dim) by (nonlinear_arith)
        requires
            dest_dim > 0,
    ;
}

/// Sampling at the size of the source reads each coordinate itself, with no
/// fractional part.
pub proof fn lemma_same_size_source(dest: int, dim: int)
    requires
        0 <= dest < dim,
    ensures
        nearest_source(dest, dim, dim) == dest,
        lower_neighbour(dest, dim, dim) == dest,
        fraction(dest, dim, dim) == 0,
        upper_neighbour(dest, dim, dim) == dest,
{
    assert((dest * dim) / dim == dest) by (nonlinear_arith)
        requires
            dim > 0,
    ;
    assert((dest * dim) % dim == 0) by (nonlinear_arith)
        requires
            dim > 0,
    ;
}

/// Resizing to the size the image has, by nearest-neighbour sampling, gives
/// the image back unchanged.
pub proof fn lemma_nearest_same_size(src: Raster)
    requires
        src.wf(),
    ensures
        resized_nearest(src, src.width, src.height) == src,
{
    let out = resized_nearest(src, src.width, src.height);
    Raster::lemma_from_fn(
        src.width,
        src.height,
        |x: int, y: int| nearest_cell(src, src.width, src.height, x, y),
    );
    assert forall|x: int, y: int| out.contains(x, y) implies out.at(x, y) == src.at(x, y) by {
        lemma_same_size_source(x, src.width as int);
        lemma_same_size_source(y, src.height as int);
        assert(src.contains(x, y));
    }
    out.lemma_equal(src);
}

/// With no fractional part on either axis the interpolation gives the first
/// neighbour.
proof fn lemma_interpolated_exact(a: int, b: int, c: int, d: int, w: int, h: int)
    requires
        w > 0,
        h > 0,
    ensures
        interpolated(a, b, c, d, 0, w, 0, h) == a,
{
    assert(a * (w - 0) * (h - 0) + b * 0 * (h - 0) + c * (w - 0) * 0 + d * 0 * 0 == a * (w * h))
        by (nonlinear_arith);
    assert(w * h > 0) by (nonlinear_arith)
        requires
            w > 0,
            h > 0,
    ;
    assert((a * (w * h)) / (w * h) == a) by (nonlinear_arith)
        requires
            w * h > 0,
    ;
}

/// Resizing to the size the image has, by bilinear interpolation, gives the
/// image back unchanged: every destination samples its own coordinate.
pub proof fn lemma_bilinear_same_size(src: Raster)
    requires
        src.wf(),
    ensures
        resized_bilinear(src, src.width, src.height) == src,
{
    let out = resized_bilinear(src, src.width, src.height);
    Raster::lemma_from_fn(
        src.width,
        src.height,
        |x: int, y: int| bilinear_cell(src, src.width, src.height, x, y),
    );
    assert forall|x: int, y: int| out.contains(x, y) implies out.at(x, y) == src.at(x, y) by {
        let w = src.width as int;
        let h = src.height as int;
        lemma_same_size_source(x, w);
        lemma_same_size_source(y, h);
        assert(src.contains(x, y));
        let p = src.at(x, y);
        lemma_interpolated_exact(p.r as int, p.r as int, p.r as int, p.r as int, w, h);
        lemma_interpolated_exact(p.g as int, p.g as int, p.g as int, p.g as int, w, h);
        lemma_interpolated_exact(p.b as int, p.b as int, p.b as int, p.b as int, w, h);
        lemma_interpolated_exact(p.a as int, p.a as int, p.a as int, p.a as int, w, h);
        assert(out.at(x, y) == bilinear_cell(src, src.width, src.height, x, y));
    }
    out.lemma_equal(src);
}

/// The four weights of an interpolation are not negative and add up to `w *
/// h`, so an interpolated channel lies between 0 and 255.
proof fn lemma_interpolated_bounds(a: int, b: int, c: int, d: int, fx: int, w: int, fy: int, h: int)
    requires
        0 <= a <= 255,
        0 <= b <= 255,
        0 <= c <= 255,
        0 <= d <= 255,
        0 <= fx < w,
        0 <= fy < h,
    ensures
        0 <= (w - fx) * (h - fy) <= w * h,
        0 <= fx * (h - fy) <= w * h,
        0 <= (w - fx) * fy <= w * h,
        0 <= fx * fy <= w * h,
        w * h > 0,
        0 <= a * ((w - fx) * (h - fy)) <= 255 * (w * h),
        0 <= b * (fx * (h - fy)) <= 255 * (w * h),
        0 <= c * ((w - fx) * fy) <= 255 * (w * h),
        0 <= d * (fx * fy) <= 255 * (w * h),
        0 <= a * ((w - fx) * (h - fy)) + b * (fx * (h - fy)) + c * ((w - fx) * fy) + d * (fx * fy) <= 255
            * (w * h),
        interpolated(a, b, c, d, fx, w, fy, h) == (a * ((w - fx) * (h - fy)) + b * (fx * (h - fy)) + c * ((w
            - fx) * fy) + d * (fx * fy)) / (w * h),
        0 <= interpolated(a, b, c, d, fx, w, fy, h) <= 255,
{
    let p = (w - fx) * (h - fy);
    let q = fx * (h - fy);
    let r = (w - fx) * fy;
    let s = fx * fy;
    assert(p + q + r + s == w * h) by (nonlinear_arith)
        requires
            p == (w - fx) * (h - fy),
            q == fx * (h - fy),
            r == (w - fx) * fy,
            s == fx * fy,
    ;
    assert(p >= 0 && q >= 0 && r >= 0 && s >= 0) by (nonlinear_arith)
        requires
            p == (w - fx) * (h - fy),
            q == fx * (h - fy),
            r == (w - fx) * fy,
            s == fx * fy,
            0 <= fx < w,
            0 <= fy < h,
    ;
    assert(0 <= a * p <= 255 * p && 0 <= b * q <= 255 * q && 0 <= c * r <= 255 * r && 0 <= d * s <= 255
        * s) by (nonlinear_arith)
        requires
            0 <= a <= 255,
            0 <= b <= 255,
            0 <= c <= 255,
            0 <= d <= 255,
            p >= 0,
            q >= 0,
            r >= 0,
            s >= 0,
    ;
    assert(a * (w - fx) * (h - fy) == a * p) by (nonlinear_arith)
        requires
            p == (w - fx) * (h - fy),
    ;
    assert(b * fx * (h - fy) == b * q) by (nonlinear_arith)
        requires
            q == fx * (h - fy),
    ;
    assert(c * (w - fx) * fy == c * r) by (nonlinear_arith)
        requires
            r == (w - fx) * fy,
    ;
    assert(d * fx * fy == d * s) by (nonlinear_arith)
        requires
            s == fx * fy,
    ;
    let total = a * p + b * q + c * r + d * s;
    assert(255 * p + 255 * q + 255 * r + 255 * s == 255 * (w * h)) by (nonlinear_arith)
        requires
            p + q + r + s == w * h,
    ;
    assert(w * h > 0) by (nonlinear_arith)
        requires
            w > 0,
            h > 0,
    ;
    assert(0 <= total / (w * h) <= 255) by (nonlinear_arith)
        requires
            0 <= total <= 255 * (w * h),
            w * h > 0,
    ;
}

/// The two neighbours of a destination coordinate along one axis, and the
/// fractional part of its source coordinate.
fn axis_sample(dest: usize, src_dim: usize, dest_dim: usize) -> (r: (usize, usize, usize))
    requires
        dest < dest_dim,
    ensures
        r.0 == lower_neighbour(dest as int, src_dim as int, dest_dim as int),
        r.1 == upper_neighbour(dest as int, src_dim as int, dest_dim as int),
        r.2 == fraction(dest as int, src_dim as int, dest_dim as int),
        r.2 < dest_dim,
{
    proof {
        lemma_source_bound(dest as int, src_dim as int, dest_dim as int);
        lemma_product_fits(dest, src_dim);
    }
    let pos: u128 = dest as u128 * src_dim as u128;
    let lo: usize = (pos / (dest_dim as u128)) as usize;
    let frac: usize = (pos % (dest_dim as u128)) as usize;
    let hi: usize = if src_dim == 0 {
        0
    } else if frac > 0 && lo < src_dim - 1 {
        lo + 1
    } else if lo > src_dim - 1 {
        src_dim - 1
    } else {
        lo
    };
    (lo, hi, frac)
}

/// One channel interpolated between four neighbours.
fn interpolate(a: u8, b: u8, c: u8, d: u8, fx: usize, w: usize, fy: usize, h: usize) -> (v: u8)
    requires
        fx < w,
        fy < h,
        w * h <= isize::MAX,
    ensures
        v == clamped(
            interpolated(a as int, b as int, c as int, d as int, fx as int, w as int, fy as int, h as int),
        ),
{
    proof {
        lemma_interpolated_bounds(
            a as int,
            b as int,
            c as int,
            d as int,
            fx as int,
            w as int,
            fy as int,
            h as int,
        );
    }
    let p: u128 = (w - fx) as u128 * (h - fy) as u128;
    let q: u128 = fx as u128 * (h - fy) as u128;
    let r: u128 = (w - fx) as u128 * fy as u128;
    let s: u128 = fx as u128 * fy as u128;
    let area: u128 = w as u128 * h as u128;
    let total: u128 = a as u128 * p + b as u128 * q + c as u128 * r + d as u128 * s;
    let v: u128 = total / area;
    v as u8
}

/// The absolute value of an offset.
pub fn offset_size(d: isize) -> (m: usize)
    ensures
        m == magnitude(d as int),
{
    if d >= 0 {
        d as usize
    } else {
        (-(d as i128)) as usize
    }
}

impl Image {
    /// Resizes the image to `new_width` by `new_height` by nearest-neighbour
    /// sampling.
    pub fn resize_nearest_neighbour(&mut self, new_width: usize, new_height: usize)
        requires
            shape_fits(new_height, new_width),
        ensures
            final(self)@ == resized_nearest(old(self)@, new_width as nat, new_height as nat),
    {
        let src_w = self.width();
        let src_h = self.height();
        let ghost src = self@;
        let mut out = Image::new(new_width, new_height);
        proof {
            Raster::lemma_from_fn(new_width as nat, new_height as nat, |x: int, y: int| Pixel::clear());
        }
        let mut y: usize = 0;
        while y < new_height
            invariant
                y <= new_height,
                self@ == src,
                src.wf(),
                src_w == src.width,
                src_h == src.height,
                out@.wf(),
                out@.width == new_width,
                out@.height == new_height,
                forall|cx: int, cy: int|
                    out@.contains(cx, cy) ==> #[trigger] out@.at(cx, cy) == (if cy < y {
                        nearest_cell(src, new_width as nat, new_height as nat, cx, cy)
                    } else {
                        Pixel::clear()
                    }),
            decreases new_height - y,
        {
            proof {
                lemma_source_bound(y as int, src_h as int, new_height as int);
                lemma_product_fits(y, src_h);
            }
            let sy: usize = ((y as u128 * src_h as u128) / (new_height as u128)) as usize;
            let mut x: usize = 0;
            while x < new_width
                invariant
                    y < new_height,
                    x <= new_width,
                    self@ == src,
                    src.wf(),
                    src_w == src.width,
                    src_h == src.height,
                    sy == nearest_source(y as int, src_h as int, new_height as int),
                    out@.wf(),
                    out@.width == new_width,
                    out@.height == new_height,
                    forall|cx: int, cy: int|
                        out@.contains(cx, cy) ==> #[trigger] out@.at(cx, cy) == (if cy < y || (cy == y
                            && cx < x) {
                            nearest_cell(src, new_width as nat, new_height as nat, cx, cy)
                        } else {
                            Pixel::clear()
                        }),
                decreases new_width - x,
            {
                proof {
                    lemma_source_bound(x as int, src_w as int, new_width as int);
                    lemma_product_fits(x, src_w);
                }
                let sx: usize = ((x as u128 * src_w as u128) / (new_width as u128)) as usize;
                let p = self.get_pixel_or_default(sx, sy);
                let ghost before = out@;
                out.set_pixel_unchecked(x, y, p);
                proof {
                    before.lemma_with_pixel(x as int, y as int, p);
                }
                x += 1;
            }
            y += 1;
        }
        proof {
            let goal = resized_nearest(src, new_width as nat, new_height as nat);
            Raster::lemma_from_fn(
                new_width as nat,
                new_height as nat,
                |x: int, y: int| nearest_cell(src, new_width as nat, new_height as nat, x, y),
            );
            out@.lemma_equal(goal);
        }
        *self = out;
    }

    /// Resizes the image to `new_width` by `new_height` by bilinear
    /// interpolation.
    pub fn resize_bilinear(&mut self, new_width: usize, new_height: usize)
        requires
            shape_fits(new_height, new_width),
        ensures
            final(self)@ == resized_bilinear(old(self)@, new_width as nat, new_height as nat),
    {
        let src_w = self.width();
        let src_h = self.height();
        let ghost src = self@;
        let mut out = Image::new(new_width, new_height);
        proof {
            Raster::lemma_from_fn(new_width as nat, new_height as nat, |x: int, y: int| Pixel::clear());
        }
        let mut y: usize = 0;
        while y < new_height
            invariant
                y <= new_height,
                shape_fits(new_height, new_width),
                self@ == src,
                src.wf(),
                src_w == src.width,
                src_h == src.height,
                out@.wf(),
                out@.width == new_width,
                out@.height == new_height,
                forall|cx: int, cy: int|
                    out@.contains(cx, cy) ==> #[trigger] out@.at(cx, cy) == (if cy < y {
                        bilinear_cell(src, new_width as nat, new_height as nat, cx, cy)
                    } else {
                        Pixel::clear()
                    }),
            decreases new_height - y,
        {
            let (y1, y2, fy) = axis_sample(y, src_h, new_height);
            let mut x: usize = 0;
            while x < new_width
                invariant
                    y < new_height,
                    x <= new_width,
                    shape_fits(new_height, new_width),
                    self@ == src,
                    src.wf(),
                    src_w == src.width,
                    src_h == src.height,
                    y1 == lower_neighbour(y as int, src_h as int, new_height as int),
                    y2 == upper_neighbour(y as int, src_h as int, new_height as int),
                    fy == fraction(y as int, src_h as int, new_height as int),
                    fy < new_height,
                    out@.wf(),
                    out@.width == new_width,
                    out@.height == new_height,
                    forall|cx: int, cy: int|
                        out@.contains(cx, cy) ==> #[trigger] out@.at(cx, cy) == (if cy < y || (cy == y
                            && cx < x) {
                            bilinear_cell(src, new_width as nat, new_height as nat, cx, cy)
                        } else {
                            Pixel::clear()
                        }),
                decreases new_width - x,
            {
                let (x1, x2, fx) = axis_sample(x, src_w, new_width);
                let a = self.get_pixel_or_default(x1, y1);
                let b = self.get_pixel_or_default(x2, y1);
                let c = self.get_pixel_or_default(x1, y2);
                let d = self.get_pixel_or_default(x2, y2);
                proof {
                    assert(new_width * new_height <= isize::MAX) by (nonlinear_arith)
                        requires
                            new_height * new_width * 4 <= isize::MAX,
                            new_width >= 0,
                            new_height >= 0,
                    ;
                }
                let p = Pixel {
                    r: interpolate(a.r, b.r, c.r, d.r, fx, new_width, fy, new_height),
                    g: interpolate(a.g, b.g, c.g, d.g, fx, new_width, fy, new_height),
                    b: interpolate(a.b, b.b, c.b, d.b, fx, new_width, fy, new_height),
                    a: interpolate(a.a, b.a, c.a, d.a, fx, new_width, fy, new_height),
                };
                let ghost before = out@;
                out.set_pixel_unchecked(x, y, p);
                proof {
                    before.lemma_with_pixel(x as int, y as int, p);
                    assert(p == bilinear_cell(src, new_width as nat, new_height as nat, x as int, y as int));
                }
                x += 1;
            }
            y += 1;
        }
        proof {
            let goal = resized_bilinear(src, new_width as nat, new_height as nat);
            Raster::lemma_from_fn(
                new_width as nat,
                new_height as nat,
                |x: int, y: int| bilinear_cell(src, new_width as nat, new_height as nat, x, y),
            );
            out@.lemma_equal(goal);
        }
        *self = out;
    }

    /// The offsets in pixels of a translation by the numbers `dx` and `dy`,
    /// which are fractions of the size of the image if `fract` is set.
    pub fn shift_offsets(&self, dx: Number, dy: Number, fract: bool) -> (r: (isize, isize))
        ensures
            r.0 == shift_offset(dx@, self@.width, fract),
            r.1 == shift_offset(dy@, self@.height, fract),
    {
        if fract {
            let w = Number::from_usize(self.width());
            let h = Number::from_usize(self.height());
            (dx.times(w).round_to_isize(), dy.times(h).round_to_isize())
        } else {
            (dx.round_to_isize(), dy.round_to_isize())
        }
    }

    /// Whether the image translated by `(dx, dy)` can be held in memory.
    pub fn can_shift_by(&self, dx: isize, dy: isize) -> (r: bool)
        ensures
            r == shift_fits(self@, dx as int, dy as int),
    {
        let grow_x = offset_size(dx);
        let grow_y = offset_size(dy);
        let w = self.width();
        let h = self.height();
        if grow_x > usize::MAX - w || grow_y > usize::MAX - h {
            return false;
        }
        Image::fits(w + grow_x, h + grow_y)
    }

    /// Translates the image by the numbers `dx` and `dy`: pixels, or
    /// fractions of the size of the image if `fract` is set.
    pub fn shift_with_empty(&mut self, dx: Number, dy: Number, fract: bool)
        requires
            shift_fits(
                old(self)@,
                shift_offset(dx@, old(self)@.width, fract),
                shift_offset(dy@, old(self)@.height, fract),
            ),
        ensures
            final(self)@ == shifted(
                old(self)@,
                shift_offset(dx@, old(self)@.width, fract),
                shift_offset(dy@, old(self)@.height, fract),
            ),
    {
        let (x, y) = self.shift_offsets(dx, dy, fract);
        self.shift_by(x, y);
    }

    /// The image translated by `dx` columns and `dy` rows. The image grows by
    /// the size of the offset along each axis; pixels moved beyond its edges
    /// are lost and cells that receive no pixel are transparent.
    pub fn shift_by(&mut self, dx: isize, dy: isize)
        requires
            shift_fits(old(self)@, dx as int, dy as int),
        ensures
            final(self)@ == shifted(old(self)@, dx as int, dy as int),
    {
        let src_w = self.width();
        let src_h = self.height();
        let ghost src = self@;
        let grow_x: usize = offset_size(dx);
        let grow_y: usize = offset_size(dy);
        let new_width: usize = src_w + grow_x;
        let new_height: usize = src_h + grow_y;
        let mut out = Image::new(new_width, new_height);
        proof {
            Raster::lemma_from_fn(new_width as nat, new_height as nat, |x: int, y: int| Pixel::clear());
        }
        let mut y: usize = 0;
        while y < new_height
            invariant
                y <= new_height,
                self@ == src,
                src.wf(),
                out@.wf(),
                out@.width == new_width,
                out@.height == new_height,
                forall|cx: int, cy: int|
                    out@.contains(cx, cy) ==> #[trigger] out@.at(cx, cy) == (if cy < y {
                        shifted_cell(src, dx as int, dy as int, cx, cy)
                    } else {
                        Pixel::clear()
                    }),
            decreases new_height - y,
        {
            let mut x: usize = 0;
            while x < new_width
                invariant
                    y < new_height,
                    x <= new_width,
                    self@ == src,
                    src.wf(),
                    out@.wf(),
                    out@.width == new_width,
                    out@.height == new_height,
                    forall|cx: int, cy: int|
                        out@.contains(cx, cy) ==> #[trigger] out@.at(cx, cy) == (if cy < y || (cy == y
                            && cx < x) {
                            shifted_cell(src, dx as int, dy as int, cx, cy)
                        } else {
                            Pixel::clear()
                        }),
                decreases new_width - x,
            {
                let sx: i128 = x as i128 - dx as i128;
                let sy: i128 = y as i128 - dy as i128;
                let p = if 0 <= sx && sx <= usize::MAX as i128 && 0 <= sy && sy <= usize::MAX as i128 {
                    self.get_pixel_or_default(sx as usize, sy as usize)
                } else {
                    Pixel::transparent()
                };
                let ghost before = out@;
                out.set_pixel_unchecked(x, y, p);
                proof {
                    before.lemma_with_pixel(x as int, y as int, p);
                }
                x += 1;
            }
            y += 1;
        }
        proof {
            let goal = shifted(src, dx as int, dy as int);
            Raster::lemma_from_fn(
                new_width as nat,
                new_height as nat,
                |x: int, y: int| shifted_cell(src, dx as int, dy as int, x, y),
            );
            out@.lemma_equal(goal);
        }
        *self = out;
    }
}

} // verus!
