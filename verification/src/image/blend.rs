//! Alpha compositing of one pixel over another, and of one image over another.
//!
//! Channels stand for the fractions `c / 255`. All arithmetic is exact: a
//! fraction is kept as an integer numerator over a fixed power of 255, and the
//! only rounding is the truncation of each result to a whole channel value.

use crate::grid::lemma_shape_fits_smaller;
use crate::image::{Image, Raster};
use crate::pixel::Pixel;
use vstd::prelude::*;

verus! {

/// How the colours of two pixels are combined.
#[derive(Clone, Copy, Debug, PartialEq, Eq, Structural)]
pub enum BlendMode {
    Normal,
    Multiply,
    Screen,
    Overlay,
}

/// 255 squared: the denominator of an alpha-weighted channel.
pub open spec fn unit2() -> int {
    65025
}

/// 255 to the fourth power: the denominator of a combined colour.
pub open spec fn unit4() -> int {
    4228250625
}

/// The alpha of the result, `a_bottom + a_top - a_bottom * a_top`, as a
/// numerator over `unit2()`.
pub open spec fn alpha_over(top_a: int, bottom_a: int) -> int {
    255 * bottom_a + 255 * top_a - bottom_a * top_a
}

/// A colour channel multiplied by its own alpha, as a numerator over `unit2()`.
pub open spec fn premultiplied(channel: int, alpha: int) -> int {
    channel * alpha
}

/// The combined premultiplied colour of one channel, as a numerator over
/// `unit4()`. `top` and `bottom` are premultiplied channels over `unit2()`.
pub open spec fn combined(mode: BlendMode, top: int, bottom: int, top_a: int) -> int {
    match mode {
        // top + bottom * (1 - a_top)
        BlendMode::Normal => unit2() * top + 255 * bottom * (255 - top_a),
        // top * bottom
        BlendMode::Multiply => top * bottom,
        // 1 - (1 - top) * (1 - bottom)
        BlendMode::Screen => unit4() - (unit2() - top) * (unit2() - bottom),
        // 2 * bottom * top below one half, else 1 - 2 * (1 - bottom) * (1 - top)
        BlendMode::Overlay => if 2 * top < unit2() {
            2 * bottom * top
        } else {
            unit4() - 2 * (unit2() - bottom) * (unit2() - top)
        },
    }
}

/// A value clamped to the range of a channel.
pub open spec fn clamp_channel(v: int) -> int {
    if v < 0 {
        0
    } else if v > 255 {
        255
    } else {
        v
    }
}

/// One colour channel of the result: the combined colour divided by the
/// result's alpha, scaled to 255, clamped and truncated.
pub open spec fn blend_channel(
    mode: BlendMode,
    top: int,
    top_a: int,
    bottom: int,
    bottom_a: int,
) -> int
    recommends
        alpha_over(top_a, bottom_a) > 0,
{
    clamp_channel(
        combined(mode, premultiplied(top, top_a), premultiplied(bottom, bottom_a), top_a) / (255
            * alpha_over(top_a, bottom_a)),
    )
}

/// The alpha channel of the result, scaled to 255, clamped and truncated.
pub open spec fn blend_alpha(top_a: int, bottom_a: int) -> int {
    clamp_channel(alpha_over(top_a, bottom_a) / 255)
}

/// `top` composited over `bottom`.
///
/// A fully transparent `top` leaves `bottom` as it is. Where the alpha of the
/// result is zero the result is transparent black.
pub open spec fn blend(mode: BlendMode, top: Pixel, bottom: Pixel) -> Pixel {
    if top.a == 0 {
        bottom
    } else if alpha_over(top.a as int, bottom.a as int) == 0 {
        Pixel::clear()
    } else {
        Pixel {
            r: blend_channel(mode, top.r as int, top.a as int, bottom.r as int, bottom.a as int) as u8,
            g: blend_channel(mode, top.g as int, top.a as int, bottom.g as int, bottom.a as int) as u8,
            b: blend_channel(mode, top.b as int, top.a as int, bottom.b as int, bottom.a as int) as u8,
            a: blend_alpha(top.a as int, bottom.a as int) as u8,
        }
    }
}

/// The product of two channel values stays within 255 squared.
proof fn lemma_product_bound(c: int, a: int)
    requires
        0 <= c <= 255,
        0 <= a <= 255,
    ensures
        0 <= c * a <= unit2(),
{
    assert(0 <= c * a <= 255 * 255) by (nonlinear_arith)
        requires
            0 <= c <= 255,
            0 <= a <= 255,
    ;
}

/// The alpha of the result is positive where the top pixel is not fully
/// transparent, and never more than one.
pub proof fn lemma_alpha_over_bounds(top_a: int, bottom_a: int)
    requires
        0 <= top_a <= 255,
        0 <= bottom_a <= 255,
    ensures
        255 * top_a <= alpha_over(top_a, bottom_a) <= unit2(),
        255 * bottom_a <= alpha_over(top_a, bottom_a),
{
    assert(alpha_over(top_a, bottom_a) == 255 * top_a + bottom_a * (255 - top_a)) by (nonlinear_arith);
    assert(alpha_over(top_a, bottom_a) == 255 * bottom_a + top_a * (255 - bottom_a)) by (nonlinear_arith);
    assert(alpha_over(top_a, bottom_a) == 255 * 255 - (255 - top_a) * (255 - bottom_a)) by (nonlinear_arith);
    assert(0 <= bottom_a * (255 - top_a)) by (nonlinear_arith)
        requires
            0 <= top_a <= 255,
            0 <= bottom_a <= 255,
    ;
    assert(0 <= top_a * (255 - bottom_a)) by (nonlinear_arith)
        requires
            0 <= top_a <= 255,
            0 <= bottom_a <= 255,
    ;
    assert(0 <= (255 - top_a) * (255 - bottom_a)) by (nonlinear_arith)
        requires
            0 <= top_a <= 255,
            0 <= bottom_a <= 255,
    ;
}

/// The combined colour is a fraction between zero and one.
proof fn lemma_combined_bounds(mode: BlendMode, top: int, bottom: int, top_a: int)
    requires
        0 <= top <= unit2(),
        0 <= bottom <= unit2(),
        0 <= top_a <= 255,
        top <= 255 * top_a,
    ensures
        0 <= combined(mode, top, bottom, top_a) <= unit4(),
{
    let u = unit2();
    assert(unit4() == u * u) by (nonlinear_arith)
        requires
            u == 255 * 255,
    ;
    match mode {
        BlendMode::Normal => {
            assert(0 <= 255 * bottom * (255 - top_a) <= u * (255 * (255 - top_a))) by (nonlinear_arith)
                requires
                    0 <= bottom <= u,
                    0 <= top_a <= 255,
            ;
            assert(u * top + u * (255 * (255 - top_a)) <= u * u) by (nonlinear_arith)
                requires
                    0 <= top <= 255 * top_a,
                    u == 255 * 255,
            ;
            assert(0 <= u * top) by (nonlinear_arith)
                requires
                    0 <= top,
                    u == 255 * 255,
            ;
        },
        BlendMode::Multiply => {
            assert(0 <= top * bottom <= u * u) by (nonlinear_arith)
                requires
                    0 <= top <= u,
                    0 <= bottom <= u,
            ;
        },
        BlendMode::Screen => {
            assert(0 <= (u - top) * (u - bottom) <= u * u) by (nonlinear_arith)
                requires
                    0 <= top <= u,
                    0 <= bottom <= u,
            ;
        },
        BlendMode::Overlay => {
            if 2 * top < u {
                assert(0 <= 2 * bottom * top <= u * u) by (nonlinear_arith)
                    requires
                        0 <= top,
                        2 * top < u,
                        0 <= bottom <= u,
                ;
            } else {
                assert(0 <= 2 * (u - bottom) * (u - top) <= u * u) by (nonlinear_arith)
                    requires
                        0 <= top <= u,
                        2 * top >= u,
                        0 <= bottom <= u,
                ;
            }
        },
    }
}

/// The cell `(x, y)` of `below` after `above` was composited over it: the
/// blend of the two pixels where `above` has a pixel there, else the pixel of
/// `below`.
pub open spec fn blend_cell(
    below: Raster,
    above: Raster,
    mode: BlendMode,
    x: int,
    y: int,
) -> Pixel {
    if above.contains(x, y) {
        blend(mode, above.at(x, y), below.at(x, y))
    } else {
        below.at(x, y)
    }
}

/// `above` composited over `below` cell by cell inside the rectangle that
/// both cover. The result has the size of `below`, and the cells of `below`
/// outside that rectangle stay as they are.
pub open spec fn blend_rasters(below: Raster, above: Raster, mode: BlendMode) -> Raster {
    Raster::from_fn(below.width, below.height, |x: int, y: int| blend_cell(below, above, mode, x, y))
}

/// The smaller of two sizes.
pub open spec fn smaller(a: nat, b: nat) -> nat {
    if a <= b {
        a
    } else {
        b
    }
}

/// `above` composited over `below` cell by cell. The result covers only the
/// rectangle that both cover: its width is the smaller of the two widths and
/// its height the smaller of the two heights.
pub open spec fn mix_rasters(below: Raster, above: Raster, mode: BlendMode) -> Raster {
    Raster::from_fn(
        smaller(below.width, above.width),
        smaller(below.height, above.height),
        |x: int, y: int| blend(mode, above.at(x, y), below.at(x, y)),
    )
}

/// In normal mode a fully opaque top pixel replaces the bottom pixel.
pub proof fn lemma_blend_opaque_top(top: Pixel, bottom: Pixel)
    requires
        top.a == 255,
    ensures
        blend(BlendMode::Normal, top, bottom) == top,
{
    let ba = bottom.a as int;
    assert(alpha_over(255, ba) == 65025) by (nonlinear_arith);
    assert forall|t: int, b: int| 0 <= t <= 255 implies #[trigger] blend_channel(
        BlendMode::Normal,
        t,
        255,
        b,
        ba,
    ) == t by {
        let num = combined(BlendMode::Normal, premultiplied(t, 255), premultiplied(b, ba), 255);
        assert(num == t * 16581375) by (nonlinear_arith)
            requires
                num == 65025 * (t * 255) + 255 * (b * ba) * (255 - 255),
        ;
        assert((t * 16581375) / 16581375int == t) by (nonlinear_arith);
    }
    assert(blend_channel(BlendMode::Normal, top.r as int, 255, bottom.r as int, ba) == top.r);
    assert(blend_channel(BlendMode::Normal, top.g as int, 255, bottom.g as int, ba) == top.g);
    assert(blend_channel(BlendMode::Normal, top.b as int, 255, bottom.b as int, ba) == top.b);
    assert(65025int / 255 == 255);
}

/// Mixing with a top image that is fully transparent everywhere gives the
/// bottom image, in every mode, provided the top image covers the bottom one.
pub proof fn lemma_mix_transparent_top(below: Raster, above: Raster, mode: BlendMode)
    requires
        below.wf(),
        above.wf(),
        below.width <= above.width,
        below.height <= above.height,
        forall|x: int, y: int| above.contains(x, y) ==> (#[trigger] above.at(x, y)).a == 0,
    ensures
        mix_rasters(below, above, mode) == below,
{
    let f = |x: int, y: int| blend(mode, above.at(x, y), below.at(x, y));
    Raster::lemma_from_fn(below.width, below.height, f);
    let mixed = mix_rasters(below, above, mode);
    assert forall|x: int, y: int| mixed.contains(x, y) implies mixed.at(x, y) == below.at(x, y) by {
        assert(above.contains(x, y));
        assert(above.at(x, y).a == 0);
        assert(mixed.at(x, y) == f(x, y));
    }
    mixed.lemma_equal(below);
}

/// Mixing in normal mode with a top image that is fully opaque everywhere
/// gives the top image, provided the bottom image covers the top one.
pub proof fn lemma_mix_opaque_top(below: Raster, above: Raster)
    requires
        below.wf(),
        above.wf(),
        above.width <= below.width,
        above.height <= below.height,
        forall|x: int, y: int| above.contains(x, y) ==> (#[trigger] above.at(x, y)).a == 255,
    ensures
        mix_rasters(below, above, BlendMode::Normal) == above,
{
    let f = |x: int, y: int| blend(BlendMode::Normal, above.at(x, y), below.at(x, y));
    Raster::lemma_from_fn(above.width, above.height, f);
    let mixed = mix_rasters(below, above, BlendMode::Normal);
    assert forall|x: int, y: int| mixed.contains(x, y) implies mixed.at(x, y) == above.at(x, y) by {
        assert(above.contains(x, y));
        assert(above.at(x, y).a == 255);
        lemma_blend_opaque_top(above.at(x, y), below.at(x, y));
        assert(mixed.at(x, y) == f(x, y));
    }
    mixed.lemma_equal(above);
}

/// Rendering a top image that is fully transparent everywhere leaves the
/// bottom image as it is.
pub proof fn lemma_blend_transparent_top(below: Raster, above: Raster, mode: BlendMode)
    requires
        below.wf(),
        forall|x: int, y: int| above.contains(x, y) ==> (#[trigger] above.at(x, y)).a == 0,
    ensures
        blend_rasters(below, above, mode) == below,
{
    let f = |x: int, y: int| blend_cell(below, above, mode, x, y);
    Raster::lemma_from_fn(below.width, below.height, f);
    let out = blend_rasters(below, above, mode);
    assert forall|x: int, y: int| out.contains(x, y) implies out.at(x, y) == below.at(x, y) by {
        assert(out.at(x, y) == f(x, y));
        if above.contains(x, y) {
            assert(above.at(x, y).a == 0);
        }
    }
    out.lemma_equal(below);
}

impl Image {
    /// `above` composited over this image, as a new image that covers only
    /// the rectangle that both cover.
    pub fn mix(&self, above: &Image, mode: BlendMode) -> (out: Image)
        ensures
            out@ == mix_rasters(self@, above@, mode),
    {
        let own_h = self.height();
        let own_w = self.width();
        let top_h = above.height();
        let top_w = above.width();
        let h = if own_h <= top_h { own_h } else { top_h };
        let w = if own_w <= top_w { own_w } else { top_w };
        proof {
            lemma_shape_fits_smaller(own_h, own_w, h, w);
            Raster::lemma_from_fn(w as nat, h as nat, |x: int, y: int| Pixel::clear());
        }
        let mut out = Image::new(w, h);
        let mut y: usize = 0;
        while y < h
            invariant
                y <= h,
                h == smaller(self@.height, above@.height),
                w == smaller(self@.width, above@.width),
                self@.wf(),
                above@.wf(),
                out@.wf(),
                out@.width == w,
                out@.height == h,
                forall|cx: int, cy: int|
                    out@.contains(cx, cy) ==> #[trigger] out@.at(cx, cy) == (if cy < y {
                        blend(mode, above@.at(cx, cy), self@.at(cx, cy))
                    } else {
                        Pixel::clear()
                    }),
            decreases h - y,
        {
            let mut x: usize = 0;
            while x < w
                invariant
                    y < h,
                    x <= w,
                    h == smaller(self@.height, above@.height),
                    w == smaller(self@.width, above@.width),
                    self@.wf(),
                    above@.wf(),
                    out@.wf(),
                    out@.width == w,
                    out@.height == h,
                    forall|cx: int, cy: int|
                        out@.contains(cx, cy) ==> #[trigger] out@.at(cx, cy) == (if cy < y || (cy == y
                            && cx < x) {
                            blend(mode, above@.at(cx, cy), self@.at(cx, cy))
                        } else {
                            Pixel::clear()
                        }),
                decreases w - x,
            {
                let top = above.get_pixel_unchecked(x, y);
                let bottom = self.get_pixel_unchecked(x, y);
                let blended = mode.blend_pixel(top, bottom);
                let ghost before = out@;
                out.set_pixel_unchecked(x, y, blended);
                proof {
                    before.lemma_with_pixel(x as int, y as int, blended);
                }
                x += 1;
            }
            y += 1;
        }
        proof {
            let goal = mix_rasters(self@, above@, mode);
            Raster::lemma_from_fn(
                w as nat,
                h as nat,
                |x: int, y: int| blend(mode, above@.at(x, y), self@.at(x, y)),
            );
            out@.lemma_equal(goal);
        }
        out
    }

    /// Composites `above` over this image in place, cell by cell, inside the
    /// rectangle that both cover. The size does not change.
    pub fn blend_images(&mut self, above: &Image, mode: BlendMode)
        ensures
            final(self)@ == blend_rasters(old(self)@, above@, mode),
    {
        let ghost start = self@;
        let ghost goal = blend_rasters(start, above@, mode);
        let own_h = self.height();
        let own_w = self.width();
        let top_h = above.height();
        let top_w = above.width();
        let h = if own_h <= top_h { own_h } else { top_h };
        let w = if own_w <= top_w { own_w } else { top_w };
        let mut y: usize = 0;
        while y < h
            invariant
                y <= h,
                h <= start.height,
                h <= above@.height,
                w <= start.width,
                w <= above@.width,
                (h == start.height || h == above@.height),
                (w == start.width || w == above@.width),
                start.wf(),
                above@.wf(),
                self@.wf(),
                self@.width == start.width,
                self@.height == start.height,
                forall|cx: int, cy: int|
                    start.contains(cx, cy) ==> #[trigger] self@.at(cx, cy) == (if cy < y {
                        blend_cell(start, above@, mode, cx, cy)
                    } else {
                        start.at(cx, cy)
                    }),
            decreases h - y,
        {
            let mut x: usize = 0;
            while x < w
                invariant
                    y < h,
                    x <= w,
                    h <= start.height,
                    h <= above@.height,
                    w <= start.width,
                    w <= above@.width,
                    (w == start.width || w == above@.width),
                    start.wf(),
                    above@.wf(),
                    self@.wf(),
                    self@.width == start.width,
                    self@.height == start.height,
                    forall|cx: int, cy: int|
                        start.contains(cx, cy) ==> #[trigger] self@.at(cx, cy) == (if cy < y || (cy == y
                            && cx < x) {
                            blend_cell(start, above@, mode, cx, cy)
                        } else {
                            start.at(cx, cy)
                        }),
                decreases w - x,
            {
                let top = above.get_pixel_unchecked(x, y);
                assert(start.contains(x as int, y as int));
                let bottom = self.get_pixel_unchecked(x, y);
                let blended = mode.blend_pixel(top, bottom);
                let ghost before = self@;
                self.set_pixel_unchecked(x, y, blended);
                proof {
                    before.lemma_with_pixel(x as int, y as int, blended);
                    assert(blended == blend_cell(start, above@, mode, x as int, y as int));
                }
                x += 1;
            }
            proof {
                assert forall|cx: int, cy: int| start.contains(cx, cy) implies #[trigger] self@.at(cx, cy)
                    == (if cy < y + 1 {
                    blend_cell(start, above@, mode, cx, cy)
                } else {
                    start.at(cx, cy)
                }) by {
                    if cy == y && cx >= w {
                        assert(!above@.contains(cx, cy));
                    }
                }
            }
            y += 1;
        }
        proof {
            Raster::lemma_from_fn(
                start.width,
                start.height,
                |x: int, y: int| blend_cell(start, above@, mode, x, y),
            );
            assert forall|cx: int, cy: int| self@.contains(cx, cy) implies self@.at(cx, cy) == goal.at(
                cx,
                cy,
            ) by {
                assert(start.contains(cx, cy));
                if cy >= h {
                    assert(!above@.contains(cx, cy));
                }
            }
            self@.lemma_equal(goal);
        }
    }
}

impl BlendMode {
    /// One colour channel of `top` over `bottom`.
    fn blend_one(&self, top: u8, top_a: u8, bottom: u8, bottom_a: u8) -> (c: u8)
        requires
            top_a > 0,
        ensures
            c == blend_channel(*self, top as int, top_a as int, bottom as int, bottom_a as int),
    {
        let ta: u64 = top_a as u64;
        let ba: u64 = bottom_a as u64;
        proof {
            lemma_product_bound(top as int, top_a as int);
            lemma_product_bound(bottom as int, bottom_a as int);
            lemma_product_bound(top_a as int, bottom_a as int);
            lemma_alpha_over_bounds(top_a as int, bottom_a as int);
            assert((top as int) * (top_a as int) <= 255 * (top_a as int)) by (nonlinear_arith)
                requires
                    0 <= top <= 255,
                    0 <= top_a,
            ;
            lemma_combined_bounds(
                *self,
                premultiplied(top as int, top_a as int),
                premultiplied(bottom as int, bottom_a as int),
                top_a as int,
            );
        }
        let tp: u64 = (top as u64) * ta;
        let bp: u64 = (bottom as u64) * ba;
        let alpha: u64 = 255 * ba + 255 * ta - ba * ta;
        let unit: u64 = 65025;
        let full: u64 = 4228250625;
        let num: u64 = match self {
            BlendMode::Normal => {
                assert(255 * bp * (255 - ta) <= 255 * 65025 * 255) by (nonlinear_arith)
                    requires
                        0 <= bp <= 65025,
                        0 <= ta <= 255,
                ;
                assert(255 * bp <= 255 * 65025) by (nonlinear_arith)
                    requires
                        0 <= bp <= 65025,
                ;
                assert(unit * tp <= 65025 * 65025) by (nonlinear_arith)
                    requires
                        unit == 65025,
                        0 <= tp <= 65025,
                ;
                unit * tp + 255 * bp * (255 - ta)
            },
            BlendMode::Multiply => {
                assert(tp * bp <= 65025 * 65025) by (nonlinear_arith)
                    requires
                        0 <= tp <= 65025,
                        0 <= bp <= 65025,
                ;
                tp * bp
            },
            BlendMode::Screen => {
                assert(0 <= (unit - tp) * (unit - bp) <= 65025 * 65025) by (nonlinear_arith)
                    requires
                        unit == 65025,
                        0 <= tp <= 65025,
                        0 <= bp <= 65025,
                ;
                full - (unit - tp) * (unit - bp)
            },
            BlendMode::Overlay => {
                if 2 * tp < unit {
                    assert(2 * bp <= 2 * 65025) by (nonlinear_arith)
                        requires
                            0 <= bp <= 65025,
                    ;
                    assert(2 * bp * tp <= 2 * 65025 * 65025) by (nonlinear_arith)
                        requires
                            0 <= tp <= 65025,
                            0 <= bp <= 65025,
                    ;
                    2 * bp * tp
                } else {
                    assert(2 * (unit - bp) <= 2 * 65025) by (nonlinear_arith)
                        requires
                            unit == 65025,
                            0 <= bp <= 65025,
                    ;
                    assert(0 <= 2 * (unit - bp) * (unit - tp) <= 2 * 65025 * 65025) by (nonlinear_arith)
                        requires
                            unit == 65025,
                            0 <= tp <= 65025,
                            0 <= bp <= 65025,
                    ;
                    full - 2 * (unit - bp) * (unit - tp)
                }
            },
        };
        let value: u64 = num / (255 * alpha);
        if value > 255 {
            255
        } else {
            value as u8
        }
    }

    /// `top` composited over `bottom` in this mode.
    pub fn blend_pixel(&self, top: Pixel, bottom: Pixel) -> (p: Pixel)
        ensures
            p == blend(*self, top, bottom),
    {
        if top.a == 0 {
            return bottom;
        }
        proof {
            lemma_alpha_over_bounds(top.a as int, bottom.a as int);
            lemma_product_bound(top.a as int, bottom.a as int);
        }
        let ta: u64 = top.a as u64;
        let ba: u64 = bottom.a as u64;
        let alpha: u64 = 255 * ba + 255 * ta - ba * ta;
        let a: u64 = alpha / 255;
        Pixel {
            r: self.blend_one(top.r, top.a, bottom.r, bottom.a),
            g: self.blend_one(top.g, top.a, bottom.g, bottom.a),
            b: self.blend_one(top.b, top.a, bottom.b, bottom.a),
            a: a as u8,
        }
    }
}

} // verus!
