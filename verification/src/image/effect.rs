//! Blur: two passes of a one-dimensional convolution, along the rows and then
//! along the columns, on each of the four channels by itself.
//!
//! The weights of a kernel are fixed-point fractions, numerators over 2^32.
//! The sums are exact: the first pass keeps 32 fractional bits, the second 64,
//! and the only rounding is the truncation of each result to a whole channel
//! value.

use crate::image::{Image, Raster};
use crate::pixel::Pixel;
use vstd::prelude::*;

verus! {

/// The weight that stands for one: 2^32.
pub open spec fn weight_one() -> int {
    0x1_0000_0000
}

/// The sum of the first `upto` weights.
pub open spec fn total(weights: Seq<u64>, upto: nat) -> int
    decreases upto,
{
    if upto == 0 {
        0
    } else {
        total(weights, (upto - 1) as nat) + weights[upto - 1]
    }
}

/// What makes a sequence of weights a kernel: an odd length, so that there is
/// a tap in the middle, and a sum of at most one.
pub open spec fn kernel_ok(weights: Seq<u64>) -> bool {
    weights.len() % 2 == 1 && total(weights, weights.len()) <= weight_one()
}

/// The value of a plane at `(x, y)`, or zero outside the plane: a neighbour
/// outside the bounds adds nothing to a sum.
pub open spec fn tap(plane: Seq<Seq<int>>, x: int, y: int) -> int {
    if 0 <= y < plane.len() && 0 <= x < plane[y].len() {
        plane[y][x]
    } else {
        0
    }
}

/// The sum of the first `upto` taps of the kernel laid over `(x, y)`, along
/// the row if `horizontal` and along the column if not. The tap `k` lies at
/// the offset `k - len / 2`. Nothing makes up for the taps that fall outside
/// the plane.
pub open spec fn weighted_sum(
    weights: Seq<u64>,
    plane: Seq<Seq<int>>,
    x: int,
    y: int,
    horizontal: bool,
    upto: nat,
) -> int
    decreases upto,
{
    if upto == 0 {
        0
    } else {
        let k = upto - 1;
        let offset = k - weights.len() / 2;
        let value = if horizontal {
            tap(plane, x + offset, y)
        } else {
            tap(plane, x, y + offset)
        };
        weighted_sum(weights, plane, x, y, horizontal, k as nat) + weights[k] * value
    }
}

/// A plane convolved with a kernel along one axis.
pub open spec fn convolved(
    weights: Seq<u64>,
    plane: Seq<Seq<int>>,
    horizontal: bool,
) -> Seq<Seq<int>> {
    Seq::new(
        plane.len(),
        |y: int|
            Seq::new(
                plane[y].len(),
                |x: int| weighted_sum(weights, plane, x, y, horizontal, weights.len()),
            ),
    )
}

/// One channel of a pixel: 0 is red, 1 green, 2 blue and anything else alpha.
pub open spec fn channel_of(p: Pixel, channel: int) -> int {
    if channel == 0 {
        p.r as int
    } else if channel == 1 {
        p.g as int
    } else if channel == 2 {
        p.b as int
    } else {
        p.a as int
    }
}

/// One channel of an image as a plane of numbers.
pub open spec fn channel_plane(src: Raster, channel: int) -> Seq<Seq<int>> {
    Seq::new(src.height, |y: int| Seq::new(src.width, |x: int| channel_of(src.at(x, y), channel)))
}

/// 2^64: the scale of a sum after both passes.
pub open spec fn scale_after_passes() -> int {
    0x1_0000_0000_0000_0000
}

/// One channel of the blurred image at `(x, y)`: the plane of that channel
/// convolved along the rows and then along the columns, truncated.
pub open spec fn blurred_channel(
    src: Raster,
    weights: Seq<u64>,
    channel: int,
    x: int,
    y: int,
) -> int {
    let sum = convolved(weights, convolved(weights, channel_plane(src, channel), true), false)[y][x];
    let v = sum / scale_after_passes();
    if v > 255 {
        255
    } else {
        v
    }
}

/// The pixel of the blurred image at `(x, y)`.
pub open spec fn blurred_cell(src: Raster, weights: Seq<u64>, x: int, y: int) -> Pixel {
    Pixel {
        r: blurred_channel(src, weights, 0, x, y) as u8,
        g: blurred_channel(src, weights, 1, x, y) as u8,
        b: blurred_channel(src, weights, 2, x, y) as u8,
        a: blurred_channel(src, weights, 3, x, y) as u8,
    }
}

/// The image blurred with a kernel. With the radius 0 the image stays as it
/// is.
pub open spec fn blurred(src: Raster, radius: nat, weights: Seq<u64>) -> Raster {
    if radius == 0 {
        src
    } else {
        Raster::from_fn(src.width, src.height, |x: int, y: int| blurred_cell(src, weights, x, y))
    }
}

/// A blur with the radius 0 returns the image unchanged.
pub proof fn lemma_blur_zero_radius(src: Raster, weights: Seq<u64>)
    ensures
        blurred(src, 0, weights) == src,
{
}

/// The sum of the weights grows with the number of weights taken.
proof fn lemma_total_monotone(weights: Seq<u64>, a: nat, b: nat)
    requires
        a <= b,
    ensures
        0 <= total(weights, a) <= total(weights, b),
    decreases b,
{
    if a == 0 {
        if b > 0 {
            lemma_total_monotone(weights, 0, (b - 1) as nat);
        }
    } else if a < b {
        lemma_total_monotone(weights, a, (b - 1) as nat);
    } else {
        lemma_total_monotone(weights, (a - 1) as nat, (a - 1) as nat);
    }
}

/// Where every value of the plane is at most `bound`, a weighted sum is at
/// most `bound` times the sum of the weights taken.
proof fn lemma_weighted_sum_bound(
    weights: Seq<u64>,
    plane: Seq<Seq<int>>,
    x: int,
    y: int,
    horizontal: bool,
    upto: nat,
    bound: int,
)
    requires
        0 <= bound,
        forall|cx: int, cy: int| 0 <= #[trigger] tap(plane, cx, cy) <= bound,
    ensures
        0 <= weighted_sum(weights, plane, x, y, horizontal, upto) <= bound * total(weights, upto),
    decreases upto,
{
    if upto > 0 {
        let k = upto - 1;
        let offset = k - weights.len() / 2;
        lemma_weighted_sum_bound(weights, plane, x, y, horizontal, k as nat, bound);
        let value = if horizontal {
            tap(plane, x + offset, y)
        } else {
            tap(plane, x, y + offset)
        };
        let w = weights[k] as int;
        assert(0 <= value <= bound);
        assert(0 <= w * value <= bound * w) by (nonlinear_arith)
            requires
                0 <= value <= bound,
                0 <= w,
        ;
        assert(bound * total(weights, k as nat) + bound * w == bound * (total(weights, k as nat) + w))
            by (nonlinear_arith);
    } else {
        assert(bound * 0 == 0);
    }
}

/// The weights of a blur.
#[derive(Debug)]
pub struct Kernel {
    weights: Vec<u64>,
}

impl View for Kernel {
    type V = Seq<u64>;

    closed spec fn view(&self) -> Seq<u64> {
        self.weights@
    }
}

impl Clone for Kernel {
    fn clone(&self) -> (copy: Self)
        ensures
            copy@ == self@,
    {
        proof {
            use_type_invariant(self);
        }
        Kernel { weights: self.weights.clone() }
    }
}

impl Kernel {
    #[verifier::type_invariant]
    spec fn inv(self) -> bool {
        kernel_ok(self.weights@)
    }

    /// A kernel of the given weights, numerators over 2^32: `None` unless
    /// their number is odd and their sum at most 2^32.
    pub fn new(weights: Vec<u64>) -> (k: Option<Kernel>)
        ensures
            k.is_some() == kernel_ok(weights@),
            k.is_some() ==> k.unwrap()@ == weights@,
    {
        let n = weights.len();
        if n % 2 != 1 {
            return None;
        }
        let mut sum: u64 = 0;
        let mut i: usize = 0;
        while i < n
            invariant
                i <= n,
                n == weights@.len(),
                sum == total(weights@, i as nat),
                sum <= weight_one(),
            decreases n - i,
        {
            let w = weights[i];
            if w > 0x1_0000_0000 || sum + w > 0x1_0000_0000 {
                proof {
                    lemma_total_monotone(weights@, (i + 1) as nat, n as nat);
                }
                return None;
            }
            sum = sum + w;
            i += 1;
        }
        Some(Kernel { weights })
    }

    /// The radius: the number of taps on each side of the middle one.
    pub fn radius(&self) -> (r: usize)
        ensures
            r == self@.len() / 2,
            kernel_ok(self@),
    {
        proof {
            use_type_invariant(self);
        }
        self.weights.len() / 2
    }

    /// The number of weights.
    pub fn len(&self) -> (n: usize)
        ensures
            n == self@.len(),
            kernel_ok(self@),
    {
        proof {
            use_type_invariant(self);
        }
        self.weights.len()
    }

    /// The weight of the tap `k`.
    pub fn weight(&self, k: usize) -> (w: u64)
        requires
            k < self@.len(),
        ensures
            w == self@[k as int],
    {
        self.weights[k]
    }
}

/// The numbers that a plane holds.
pub open spec fn plane_values(plane: Seq<Vec<u128>>) -> Seq<Seq<int>> {
    Seq::new(plane.len(), |y: int| Seq::new(plane[y]@.len(), |x: int| plane[y]@[x] as int))
}

/// Whether a plane has `height` rows of `width` values, none above `bound`.
pub open spec fn plane_within(plane: Seq<Vec<u128>>, width: int, height: int, bound: int) -> bool {
    &&& plane.len() == height
    &&& forall|y: int| 0 <= y < height ==> (#[trigger] plane[y])@.len() == width
    &&& forall|y: int, x: int| 0 <= y < height && 0 <= x < width ==> (#[trigger] plane[y]@[x]) <= bound
}

/// Every tap of a plane within `bound` lies between zero and `bound`.
proof fn lemma_taps_within(plane: Seq<Vec<u128>>, width: int, height: int, bound: int)
    requires
        plane_within(plane, width, height, bound),
        0 <= bound,
    ensures
        forall|cx: int, cy: int| 0 <= #[trigger] tap(plane_values(plane), cx, cy) <= bound,
{
    assert forall|cx: int, cy: int| 0 <= #[trigger] tap(plane_values(plane), cx, cy) <= bound by {
        if 0 <= cy < plane.len() && 0 <= cx < plane_values(plane)[cy].len() {
            assert(plane[cy]@.len() == width);
            assert(plane[cy]@[cx] <= bound);
        }
    }
}

/// One sample of a convolution: the kernel laid over `(x, y)`.
fn convolve_at(
    input: &Vec<Vec<u128>>,
    kernel: &Kernel,
    horizontal: bool,
    x: usize,
    y: usize,
    Ghost(bound): Ghost<int>,
) -> (acc: u128)
    requires
        y < input@.len(),
        x < input@[y as int]@.len(),
        plane_within(input@, input@[y as int]@.len() as int, input@.len() as int, bound),
        0 <= bound,
        bound * weight_one() <= u128::MAX,
    ensures
        acc == weighted_sum(kernel@, plane_values(input@), x as int, y as int, horizontal, kernel@.len()),
        acc <= bound * weight_one(),
{
    let n = kernel.len();
    let radius = kernel.radius();
    let height = input.len();
    let width = input[y].len();
    let ghost plane = plane_values(input@);
    proof {
        lemma_taps_within(input@, width as int, height as int, bound);
    }
    let mut acc: u128 = 0;
    let mut k: usize = 0;
    while k < n
        invariant
            k <= n,
            n == kernel@.len(),
            radius == n / 2,
            kernel_ok(kernel@),
            height == input@.len(),
            width == input@[y as int]@.len(),
            y < height,
            x < width,
            plane == plane_values(input@),
            plane_within(input@, width as int, height as int, bound),
            0 <= bound,
            bound * weight_one() <= u128::MAX,
            forall|cx: int, cy: int| 0 <= #[trigger] tap(plane, cx, cy) <= bound,
            acc == weighted_sum(kernel@, plane, x as int, y as int, horizontal, k as nat),
        decreases n - k,
    {
        let w = kernel.weight(k);
        let ghost offset = k as int - radius as int;
        let ghost value = if horizontal {
            tap(plane, x + offset, y as int)
        } else {
            tap(plane, x as int, y + offset)
        };
        proof {
            lemma_weighted_sum_bound(kernel@, plane, x as int, y as int, horizontal, (k + 1) as nat, bound);
            lemma_total_monotone(kernel@, (k + 1) as nat, n as nat);
            lemma_total_monotone(kernel@, k as nat, (k + 1) as nat);
            assert(bound * total(kernel@, (k + 1) as nat) <= bound * weight_one()) by (nonlinear_arith)
                requires
                    0 <= bound,
                    total(kernel@, (k + 1) as nat) <= weight_one(),
            ;
            assert(0 <= w * value <= bound * w) by (nonlinear_arith)
                requires
                    0 <= value <= bound,
                    0 <= w,
            ;
            assert(bound * w <= bound * weight_one()) by (nonlinear_arith)
                requires
                    0 <= bound,
                    w <= weight_one(),
            ;
            assert(weighted_sum(kernel@, plane, x as int, y as int, horizontal, (k + 1) as nat)
                == weighted_sum(kernel@, plane, x as int, y as int, horizontal, k as nat) + kernel@[k as int]
                * value);
        }
        let along: usize = if horizontal { x } else { y };
        let limit: usize = if horizontal { width } else { height };
        // the tap lies at `along + k - radius`
        let reach: u128 = along as u128 + k as u128;
        if reach >= radius as u128 && reach - (radius as u128) < limit as u128 {
            let at: usize = (reach - (radius as u128)) as usize;
            let v: u128 = if horizontal {
                input[y][at]
            } else {
                input[at][x]
            };
            assert(v as int == value);
            acc = acc + (w as u128) * v;
        } else {
            assert(value == 0);
            assert(w * value == 0) by (nonlinear_arith)
                requires
                    value == 0,
            ;
        }
        k += 1;
    }
    proof {
        lemma_weighted_sum_bound(kernel@, plane, x as int, y as int, horizontal, n as nat, bound);
        assert(bound * total(kernel@, n as nat) <= bound * weight_one()) by (nonlinear_arith)
            requires
                0 <= bound,
                total(kernel@, n as nat) <= weight_one(),
        ;
    }
    acc
}

/// A plane convolved with a kernel along one axis: along the rows if
/// `horizontal`, along the columns if not.
fn convolve_1d(
    input: &Vec<Vec<u128>>,
    kernel: &Kernel,
    horizontal: bool,
    width: usize,
    Ghost(bound): Ghost<int>,
) -> (output: Vec<Vec<u128>>)
    requires
        plane_within(input@, width as int, input@.len() as int, bound),
        0 <= bound,
        bound * weight_one() <= u128::MAX,
    ensures
        plane_values(output@) == convolved(kernel@, plane_values(input@), horizontal),
        plane_within(output@, width as int, input@.len() as int, bound * weight_one()),
{
    let height = input.len();
    let ghost goal = convolved(kernel@, plane_values(input@), horizontal);
    let mut output: Vec<Vec<u128>> = Vec::new();
    let mut y: usize = 0;
    while y < height
        invariant
            y <= height,
            height == input@.len(),
            plane_within(input@, width as int, height as int, bound),
            0 <= bound,
            bound * weight_one() <= u128::MAX,
            output@.len() == y,
            forall|cy: int| 0 <= cy < y ==> (#[trigger] output@[cy])@.len() == width,
            forall|cy: int, cx: int|
                0 <= cy < y && 0 <= cx < width ==> (#[trigger] output@[cy]@[cx]) == weighted_sum(
                    kernel@,
                    plane_values(input@),
                    cx,
                    cy,
                    horizontal,
                    kernel@.len(),
                ),
            forall|cy: int, cx: int|
                0 <= cy < y && 0 <= cx < width ==> (#[trigger] output@[cy]@[cx]) <= bound * weight_one(),
        decreases height - y,
    {
        let mut row: Vec<u128> = Vec::new();
        let mut x: usize = 0;
        while x < width
            invariant
                x <= width,
                y < height,
                height == input@.len(),
                plane_within(input@, width as int, height as int, bound),
                0 <= bound,
                bound * weight_one() <= u128::MAX,
                row@.len() == x,
                forall|cx: int|
                    0 <= cx < x ==> (#[trigger] row@[cx]) == weighted_sum(
                        kernel@,
                        plane_values(input@),
                        cx,
                        y as int,
                        horizontal,
                        kernel@.len(),
                    ),
                forall|cx: int| 0 <= cx < x ==> (#[trigger] row@[cx]) <= bound * weight_one(),
            decreases width - x,
        {
            assert(input@[y as int]@.len() == width);
            let acc = convolve_at(input, kernel, horizontal, x, y, Ghost(bound));
            row.push(acc);
            x += 1;
        }
        output.push(row);
        y += 1;
    }
    proof {
        let got = plane_values(output@);
        assert(got.len() == goal.len());
        assert forall|cy: int| 0 <= cy < got.len() implies got[cy] =~= goal[cy] by {
            assert(output@[cy]@.len() == width);
            assert(input@[cy]@.len() == width);
            assert forall|cx: int| 0 <= cx < got[cy].len() implies got[cy][cx] == goal[cy][cx] by {
                assert(output@[cy]@[cx] == weighted_sum(
                    kernel@,
                    plane_values(input@),
                    cx,
                    cy,
                    horizontal,
                    kernel@.len(),
                ));
            }
        }
        assert(got =~= goal);
    }
    output
}

/// One channel of a pixel by its number.
fn channel_value(p: Pixel, channel: u8) -> (v: u8)
    ensures
        v == channel_of(p, channel as int),
{
    if channel == 0 {
        p.r
    } else if channel == 1 {
        p.g
    } else if channel == 2 {
        p.b
    } else {
        p.a
    }
}

impl Image {
    /// One channel of the image as a plane of numbers.
    fn plane_of(&self, channel: u8) -> (plane: Vec<Vec<u128>>)
        ensures
            plane_values(plane@) == channel_plane(self@, channel as int),
            plane_within(plane@, self@.width as int, self@.height as int, 255),
    {
        let width = self.width();
        let height = self.height();
        let mut plane: Vec<Vec<u128>> = Vec::new();
        let mut y: usize = 0;
        while y < height
            invariant
                y <= height,
                width == self@.width,
                height == self@.height,
                plane@.len() == y,
                forall|cy: int| 0 <= cy < y ==> (#[trigger] plane@[cy])@.len() == width,
                forall|cy: int, cx: int|
                    0 <= cy < y && 0 <= cx < width ==> (#[trigger] plane@[cy]@[cx]) == channel_of(
                        self@.at(cx, cy),
                        channel as int,
                    ),
            decreases height - y,
        {
            let mut row: Vec<u128> = Vec::new();
            let mut x: usize = 0;
            while x < width
                invariant
                    x <= width,
                    y < height,
                    width == self@.width,
                    height == self@.height,
                    row@.len() == x,
                    forall|cx: int|
                        0 <= cx < x ==> (#[trigger] row@[cx]) == channel_of(
                            self@.at(cx, y as int),
                            channel as int,
                        ),
                decreases width - x,
            {
                let p = self.get_pixel_unchecked(x, y);
                row.push(channel_value(p, channel) as u128);
                x += 1;
            }
            plane.push(row);
            y += 1;
        }
        proof {
            let got = plane_values(plane@);
            let goal = channel_plane(self@, channel as int);
            assert forall|cy: int| 0 <= cy < got.len() implies got[cy] =~= goal[cy] by {
                assert(plane@[cy]@.len() == width);
                assert forall|cx: int| 0 <= cx < got[cy].len() implies got[cy][cx] == goal[cy][cx] by {
                    assert(plane@[cy]@[cx] == channel_of(self@.at(cx, cy), channel as int));
                }
            }
            assert(got =~= goal);
        }
        plane
    }

    /// One channel of the image after both passes, at the scale 2^64.
    fn blur_channel(&self, kernel: &Kernel, channel: u8) -> (plane: Vec<Vec<u128>>)
        ensures
            plane_values(plane@) == convolved(
                kernel@,
                convolved(kernel@, channel_plane(self@, channel as int), true),
                false,
            ),
            plane_within(plane@, self@.width as int, self@.height as int, 255 * weight_one() * weight_one()),
    {
        let width = self.width();
        let source = self.plane_of(channel);
        let along_rows = convolve_1d(&source, kernel, true, width, Ghost(255));
        let along_columns = convolve_1d(&along_rows, kernel, false, width, Ghost(255 * weight_one()));
        along_columns
    }

    /// Blurs the image with a kernel, along the rows and then along the
    /// columns, each channel by itself. With the radius 0 the image stays as
    /// it is and the kernel is not looked at.
    pub fn blur(&mut self, radius: usize, kernel: &Kernel)
        ensures
            final(self)@ == blurred(old(self)@, radius as nat, kernel@),
            radius == 0 ==> final(self)@ == old(self)@,
    {
        if radius == 0 {
            return ;
        }
        let width = self.width();
        let height = self.height();
        let ghost src = self@;
        let red = self.blur_channel(kernel, 0);
        let green = self.blur_channel(kernel, 1);
        let blue = self.blur_channel(kernel, 2);
        let alpha = self.blur_channel(kernel, 3);
        let ghost full = 255 * weight_one() * weight_one();
        let mut y: usize = 0;
        while y < height
            invariant
                y <= height,
                src.wf(),
                self@.wf(),
                width == src.width,
                height == src.height,
                self@.width == src.width,
                self@.height == src.height,
                full == 255 * weight_one() * weight_one(),
                plane_within(red@, width as int, height as int, full),
                plane_within(green@, width as int, height as int, full),
                plane_within(blue@, width as int, height as int, full),
                plane_within(alpha@, width as int, height as int, full),
                plane_values(red@) == convolved(kernel@, convolved(kernel@, channel_plane(src, 0), true), false),
                plane_values(green@) == convolved(
                    kernel@,
                    convolved(kernel@, channel_plane(src, 1), true),
                    false,
                ),
                plane_values(blue@) == convolved(kernel@, convolved(kernel@, channel_plane(src, 2), true), false),
                plane_values(alpha@) == convolved(
                    kernel@,
                    convolved(kernel@, channel_plane(src, 3), true),
                    false,
                ),
                forall|cx: int, cy: int|
                    src.contains(cx, cy) ==> #[trigger] self@.at(cx, cy) == (if cy < y {
                        blurred_cell(src, kernel@, cx, cy)
                    } else {
                        src.at(cx, cy)
                    }),
            decreases height - y,
        {
            let mut x: usize = 0;
            while x < width
                invariant
                    x <= width,
                    y < height,
                    src.wf(),
                    self@.wf(),
                    width == src.width,
                    height == src.height,
                    self@.width == src.width,
                    self@.height == src.height,
                    full == 255 * weight_one() * weight_one(),
                    plane_within(red@, width as int, height as int, full),
                    plane_within(green@, width as int, height as int, full),
                    plane_within(blue@, width as int, height as int, full),
                    plane_within(alpha@, width as int, height as int, full),
                    plane_values(red@) == convolved(
                        kernel@,
                        convolved(kernel@, channel_plane(src, 0), true),
                        false,
                    ),
                    plane_values(green@) == convolved(
                        kernel@,
                        convolved(kernel@, channel_plane(src, 1), true),
                        false,
                    ),
                    plane_values(blue@) == convolved(
                        kernel@,
                        convolved(kernel@, channel_plane(src, 2), true),
                        false,
                    ),
                    plane_values(alpha@) == convolved(
                        kernel@,
                        convolved(kernel@, channel_plane(src, 3), true),
                        false,
                    ),
                    forall|cx: int, cy: int|
                        src.contains(cx, cy) ==> #[trigger] self@.at(cx, cy) == (if cy < y || (cy == y
                            && cx < x) {
                            blurred_cell(src, kernel@, cx, cy)
                        } else {
                            src.at(cx, cy)
                        }),
                decreases width - x,
            {
                let p = Pixel {
                    r: truncate_sum(&red, x, y, Ghost(width as int), Ghost(height as int)),
                    g: truncate_sum(&green, x, y, Ghost(width as int), Ghost(height as int)),
                    b: truncate_sum(&blue, x, y, Ghost(width as int), Ghost(height as int)),
                    a: truncate_sum(&alpha, x, y, Ghost(width as int), Ghost(height as int)),
                };
                assert(p == blurred_cell(src, kernel@, x as int, y as int));
                let ghost before = self@;
                self.set_pixel_unchecked(x, y, p);
                proof {
                    before.lemma_with_pixel(x as int, y as int, p);
                }
                x += 1;
            }
            y += 1;
        }
        proof {
            let goal = blurred(src, radius as nat, kernel@);
            Raster::lemma_from_fn(src.width, src.height, |x: int, y: int| blurred_cell(src, kernel@, x, y));
            self@.lemma_equal(goal);
        }
    }
}

/// The sum at `(x, y)` of a plane at the scale 2^64, truncated to a channel
/// value.
fn truncate_sum(
    plane: &Vec<Vec<u128>>,
    x: usize,
    y: usize,
    Ghost(width): Ghost<int>,
    Ghost(height): Ghost<int>,
) -> (v: u8)
    requires
        plane_within(plane@, width, height, 255 * weight_one() * weight_one()),
        x < width,
        y < height,
    ensures
        v == ({
            let q = plane_values(plane@)[y as int][x as int] / scale_after_passes();
            if q > 255 {
                255
            } else {
                q
            }
        }),
{
    assert(plane@[y as int]@.len() == width);
    let sum: u128 = plane[y][x];
    let q: u128 = sum / 0x1_0000_0000_0000_0000u128;
    if q > 255 {
        255
    } else {
        q as u8
    }
}

} // verus!
