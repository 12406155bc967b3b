//! The pixel buffer: a width, a height and one pixel for every cell.

use crate::grid::{grid_clone, grid_filled, grid_get, grid_rows, grid_set, shape_fits, PixelGrid};
use crate::pixel::Pixel;
use vstd::prelude::*;

pub mod blend;
pub mod effect;
pub mod resample;

verus! {

/// What an image is: its size and its rows of pixels, top to bottom.
pub struct Raster {
    pub width: nat,
    pub height: nat,
    pub rows: Seq<Seq<Pixel>>,
}

impl Raster {
    /// There are `height` rows and each has `width` pixels.
    pub open spec fn wf(self) -> bool {
        &&& self.rows.len() == self.height
        &&& forall|y: int| 0 <= y < self.height ==> (#[trigger] self.rows[y]).len() == self.width
    }

    /// Whether the cell `(x, y)` lies inside the image.
    pub open spec fn contains(self, x: int, y: int) -> bool {
        0 <= x < self.width && 0 <= y < self.height
    }

    /// The pixel in column `x` of row `y`.
    pub open spec fn at(self, x: int, y: int) -> Pixel {
        self.rows[y][x]
    }

    /// The pixel at `(x, y)`, or transparent black outside the image.
    pub open spec fn at_or_clear(self, x: int, y: int) -> Pixel {
        if self.contains(x, y) {
            self.at(x, y)
        } else {
            Pixel::clear()
        }
    }

    /// The image of the given size whose pixel at `(x, y)` is `f(x, y)`.
    pub open spec fn from_fn(width: nat, height: nat, f: spec_fn(int, int) -> Pixel) -> Raster {
        Raster { width, height, rows: Seq::new(height, |y: int| Seq::new(width, |x: int| f(x, y))) }
    }

    /// The fully transparent image of the given size.
    pub open spec fn blank(width: nat, height: nat) -> Raster {
        Raster::from_fn(width, height, |x: int, y: int| Pixel::clear())
    }

    /// This image with the pixel at `(x, y)` replaced.
    pub open spec fn with_pixel(self, x: int, y: int, color: Pixel) -> Raster {
        Raster { rows: self.rows.update(y, self.rows[y].update(x, color)), ..self }
    }

    /// What `from_fn` builds: a well-formed image of the given size whose
    /// pixels are the values of `f`.
    pub proof fn lemma_from_fn(width: nat, height: nat, f: spec_fn(int, int) -> Pixel)
        ensures
            Raster::from_fn(width, height, f).wf(),
            Raster::from_fn(width, height, f).width == width,
            Raster::from_fn(width, height, f).height == height,
            forall|x: int, y: int|
                0 <= x < width && 0 <= y < height ==> #[trigger] Raster::from_fn(width, height, f).at(x, y)
                    == f(x, y),
    {
    }

    /// Replacing one pixel keeps the size and every other pixel.
    pub proof fn lemma_with_pixel(self, x: int, y: int, color: Pixel)
        requires
            self.wf(),
            self.contains(x, y),
        ensures
            self.with_pixel(x, y, color).wf(),
            self.with_pixel(x, y, color).width == self.width,
            self.with_pixel(x, y, color).height == self.height,
            self.with_pixel(x, y, color).at(x, y) == color,
            forall|cx: int, cy: int|
                self.contains(cx, cy) && (cx != x || cy != y) ==> #[trigger] self.with_pixel(x, y, color).at(
                    cx,
                    cy,
                ) == self.at(cx, cy),
    {
        let after = self.with_pixel(x, y, color);
        assert forall|cy: int| 0 <= cy < after.height implies (#[trigger] after.rows[cy]).len()
            == after.width by {
            assert(self.rows[cy].len() == self.width);
        }
    }

    /// Two well-formed images of one size with the same pixel in every cell
    /// are the same image.
    pub proof fn lemma_equal(self, other: Raster)
        requires
            self.wf(),
            other.wf(),
            self.width == other.width,
            self.height == other.height,
            forall|x: int, y: int| self.contains(x, y) ==> self.at(x, y) == other.at(x, y),
        ensures
            self == other,
    {
        assert forall|y: int| 0 <= y < self.height implies self.rows[y] == other.rows[y] by {
            assert forall|x: int| 0 <= x < self.width implies self.rows[y][x] == other.rows[y][x] by {
                assert(self.contains(x, y));
                assert(self.at(x, y) == other.at(x, y));
            }
            assert(self.rows[y] =~= other.rows[y]);
        }
        assert(self.rows =~= other.rows);
    }
}

/// A raster image.
#[derive(Debug)]
pub struct Image {
    width: usize,
    height: usize,
    image: PixelGrid,
}

impl View for Image {
    type V = Raster;

    closed spec fn view(&self) -> Raster {
        Raster { width: self.width as nat, height: self.height as nat, rows: grid_rows(self.image) }
    }
}

impl Clone for Image {
    fn clone(&self) -> (copy: Self)
        ensures
            copy@ == self@,
    {
        proof {
            use_type_invariant(self);
        }
        Image { width: self.width, height: self.height, image: grid_clone(&self.image) }
    }
}

impl Image {
    #[verifier::type_invariant]
    spec fn inv(self) -> bool {
        self@.wf() && shape_fits(self.height, self.width)
    }

    /// Whether an image of this size can be made.
    pub fn fits(width: usize, height: usize) -> (r: bool)
        ensures
            r == shape_fits(height, width),
    {
        let limit: usize = isize::MAX as usize;
        if width == 0 {
            height <= limit
        } else if height == 0 {
            width <= limit
        } else {
            let cap: usize = limit / 4;
            let per_row: usize = cap / width;
            proof {
                // height * width * 4 <= limit  <==>  height <= (limit / 4) / width
                assert(height * width * 4 <= limit <==> height * width <= cap) by (nonlinear_arith)
                    requires
                        cap == limit / 4,
                ;
                assert(height * width <= cap <==> height <= per_row) by (nonlinear_arith)
                    requires
                        per_row == cap / width,
                        width > 0,
                ;
            }
            height <= per_row
        }
    }

    /// A fully transparent image of the given size.
    pub fn new(width: usize, height: usize) -> (img: Image)
        requires
            shape_fits(height, width),
        ensures
            img@ == Raster::blank(width as nat, height as nat),
    {
        let image = grid_filled(height, width, Pixel::transparent());
        proof {
            assert(grid_rows(image) =~~= Raster::blank(width as nat, height as nat).rows);
        }
        Image { width, height, image }
    }

    /// The number of columns. Every image is well-formed and of a size that
    /// can be allocated.
    pub fn width(&self) -> (w: usize)
        ensures
            w == self@.width,
            self@.wf(),
            shape_fits(self@.height as usize, self@.width as usize),
    {
        proof {
            use_type_invariant(self);
        }
        self.width
    }

    /// The number of rows.
    pub fn height(&self) -> (h: usize)
        ensures
            h == self@.height,
            self@.wf(),
            shape_fits(self@.height as usize, self@.width as usize),
    {
        proof {
            use_type_invariant(self);
        }
        self.height
    }

    /// The pixel at `(x, y)`, which must lie inside the image.
    pub fn get_pixel_unchecked(&self, x: usize, y: usize) -> (p: Pixel)
        requires
            self@.contains(x as int, y as int),
        ensures
            p == self@.at(x as int, y as int),
    {
        proof {
            use_type_invariant(self);
        }
        grid_get(&self.image, y, x).unwrap()
    }

    /// The pixel at `(x, y)`, or transparent black where `(x, y)` lies outside
    /// the image.
    pub fn get_pixel_or_default(&self, x: usize, y: usize) -> (p: Pixel)
        ensures
            p == self@.at_or_clear(x as int, y as int),
    {
        proof {
            use_type_invariant(self);
        }
        match grid_get(&self.image, y, x) {
            Some(p) => p,
            None => Pixel::transparent(),
        }
    }

    /// Replaces the pixel at `(x, y)`, which must lie inside the image.
    pub fn set_pixel_unchecked(&mut self, x: usize, y: usize, color: Pixel)
        requires
            old(self)@.contains(x as int, y as int),
        ensures
            final(self)@ == old(self)@.with_pixel(x as int, y as int, color),
    {
        proof {
            use_type_invariant(&*self);
        }
        grid_set(&mut self.image, y, x, color);
    }
}

} // verus!
