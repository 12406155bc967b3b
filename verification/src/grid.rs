//! Storage of pixels in a two-dimensional `ndarray` array.
//!
//! Verus does not look inside the array. What it knows of one is what the
//! functions of this module state about it, and those statements are taken on
//! trust from the documentation and source of `ndarray`.

use crate::pixel::Pixel;
use vstd::prelude::*;

verus! {

/// A dense two-dimensional array of pixels, held by `ndarray`.
#[verifier::external_body]
#[derive(Debug)]
pub struct PixelGrid {
    cells: ndarray::Array2<Pixel>,
}

/// The rows of a grid from top to bottom, each row from left to right.
pub uninterp spec fn grid_rows(g: PixelGrid) -> Seq<Seq<Pixel>>;

/// The number of bytes that one pixel takes in memory.
pub open spec fn pixel_bytes() -> int {
    4
}

/// Whether an array of `height` rows and `width` columns can be allocated:
/// the product of the axis lengths that are not zero, and the bytes of all
/// cells together, stay within `isize::MAX`.
pub open spec fn shape_fits(height: usize, width: usize) -> bool {
    &&& height == 0 ==> width <= isize::MAX
    &&& width == 0 ==> height <= isize::MAX
    &&& height * width * pixel_bytes() <= isize::MAX
}

/// A smaller shape fits where a larger one does.
pub proof fn lemma_shape_fits_smaller(height: usize, width: usize, h: usize, w: usize)
    requires
        shape_fits(height, width),
        h <= height,
        w <= width,
    ensures
        shape_fits(h, w),
{
    assert(h * w <= height * width) by (nonlinear_arith)
        requires
            0 <= h <= height,
            0 <= w <= width,
    ;
    if height > 0 {
        assert(width <= height * width) by (nonlinear_arith)
            requires
                height > 0,
                width >= 0,
        ;
    }
    if width > 0 {
        assert(height <= height * width) by (nonlinear_arith)
            requires
                width > 0,
                height >= 0,
        ;
    }
}

/// `ndarray::ArrayBase::from_elem` with the shape `(height, width)`.
///
/// Trusted: the new array has `height` rows of `width` cells, and every cell
/// holds `fill`. The outside function panics where the product of the
/// non-zero axis lengths overflows `isize`, and the vector it allocates panics
/// where its bytes do; `shape_fits` leaves both out.
#[verifier::external_body]
pub(crate) fn grid_filled(height: usize, width: usize, fill: Pixel) -> (g: PixelGrid)
    requires
        shape_fits(height, width),
    ensures
        grid_rows(g) == Seq::new(height as nat, |y: int| Seq::new(width as nat, |x: int| fill)),
{
    PixelGrid { cells: ndarray::Array2::from_elem((height, width), fill) }
}

/// `ndarray::ArrayBase::get` with the index `(y, x)`.
///
/// Trusted: the result is the cell in row `y` and column `x`, or `None` where
/// the index lies outside the array.
#[verifier::external_body]
pub(crate) fn grid_get(g: &PixelGrid, y: usize, x: usize) -> (r: Option<Pixel>)
    ensures
        r == (if y < grid_rows(*g).len() && x < grid_rows(*g)[y as int].len() {
            Some(grid_rows(*g)[y as int][x as int])
        } else {
            None
        }),
{
    g.cells.get((y, x)).copied()
}

/// `ndarray::ArrayBase::get_mut` with the index `(y, x)`, followed by a write
/// through the reference it returns.
///
/// Trusted: the cell in row `y` and column `x` becomes `value` and every other
/// cell stays as it was. The index must lie inside the array; the call then
/// cannot panic.
#[verifier::external_body]
pub(crate) fn grid_set(g: &mut PixelGrid, y: usize, x: usize, value: Pixel)
    requires
        y < grid_rows(*old(g)).len(),
        x < grid_rows(*old(g))[y as int].len(),
    ensures
        grid_rows(*final(g)) == grid_rows(*old(g)).update(
            y as int,
            grid_rows(*old(g))[y as int].update(x as int, value),
        ),
    no_unwind
{
    *g.cells.get_mut((y, x)).unwrap() = value;
}

/// `Clone::clone` of the array.
///
/// Trusted: the copy holds the same rows.
#[verifier::external_body]
pub(crate) fn grid_clone(g: &PixelGrid) -> (r: PixelGrid)
    ensures
        grid_rows(r) == grid_rows(*g),
{
    PixelGrid { cells: g.cells.clone() }
}

} // verus!
