//! A fixed-size grid of colours.
use vstd::prelude::*;
use crate::color::Color;

verus! {

/// What a canvas holds: its dimensions and its pixels, row by row from the
/// top, each row from the left.
pub struct Grid {
    pub width: int,
    pub height: int,
    pub pixels: Seq<Color>,
}

impl Grid {
    /// The dimensions are not negative and there is one pixel per coordinate.
    pub open spec fn wf(self) -> bool {
        &&& 0 <= self.width
        &&& 0 <= self.height
        &&& self.pixels.len() == self.width * self.height
    }

    /// `(x, y)` is a coordinate of the grid.
    pub open spec fn contains(self, x: int, y: int) -> bool {
        0 <= x < self.width && 0 <= y < self.height
    }

    /// Where the pixel at `(x, y)` stands in `pixels`.
    pub open spec fn index_of(self, x: int, y: int) -> int {
        y * self.width + x
    }

    /// The pixel at `(x, y)`.
    pub open spec fn get(self, x: int, y: int) -> Color {
        self.pixels[self.index_of(x, y)]
    }

    /// The grid with the pixel at `(x, y)` replaced by `c`.
    pub open spec fn set(self, x: int, y: int, c: Color) -> Grid {
        Grid { pixels: self.pixels.update(self.index_of(x, y), c), ..self }
    }

    /// The all-black grid of the given dimensions.
    pub open spec fn blank(width: int, height: int) -> Grid {
        Grid { width, height, pixels: Seq::new((width * height) as nat, |i: int| Color::black()) }
    }

    /// The index of a coordinate of the grid is an index into `pixels`.
    pub proof fn lemma_index_in_range(self, x: int, y: int)
        requires
            self.wf(),
            self.contains(x, y),
        ensures
            0 <= self.index_of(x, y) < self.pixels.len(),
    {
        let w = self.width;
        let h = self.height;
        assert(0 <= y * w && y * w + w <= h * w) by (nonlinear_arith)
            requires
                0 <= y < h,
                0 <= w,
        ;
        assert(h * w == w * h) by (nonlinear_arith);
    }

    /// Two coordinates of the grid with the same index are the same.
    pub proof fn lemma_index_injective(self, x1: int, y1: int, x2: int, y2: int)
        requires
            self.contains(x1, y1),
            self.contains(x2, y2),
            self.index_of(x1, y1) == self.index_of(x2, y2),
        ensures
            x1 == x2,
            y1 == y2,
    {
        let w = self.width;
        if y1 < y2 {
            assert(y1 * w + w <= y2 * w) by (nonlinear_arith)
                requires
                    y1 < y2,
                    0 <= w,
            ;
        } else if y2 < y1 {
            assert(y2 * w + w <= y1 * w) by (nonlinear_arith)
                requires
                    y2 < y1,
                    0 <= w,
            ;
        }
    }

    /// A new grid is black at every coordinate.
    pub proof fn lemma_blank_is_black(width: int, height: int, x: int, y: int)
        requires
            0 <= width,
            0 <= height,
            Grid::blank(width, height).contains(x, y),
        ensures
            Grid::blank(width, height).wf(),
            Grid::blank(width, height).get(x, y) == Color::black(),
    {
        let g = Grid::blank(width, height);
        assert(0 <= width * height) by (nonlinear_arith)
            requires
                0 <= width,
                0 <= height,
        ;
        g.lemma_index_in_range(x, y);
    }

    /// A pixel that was set is the pixel that is read back.
    pub proof fn lemma_set_then_get(self, x: int, y: int, c: Color)
        requires
            self.wf(),
            self.contains(x, y),
        ensures
            self.set(x, y, c).wf(),
            self.set(x, y, c).get(x, y) == c,
    {
        self.lemma_index_in_range(x, y);
    }

    /// Setting a pixel leaves every other pixel as it was.
    pub proof fn lemma_set_keeps_others(self, x: int, y: int, c: Color, x2: int, y2: int)
        requires
            self.wf(),
            self.contains(x, y),
            self.contains(x2, y2),
            x2 != x || y2 != y,
        ensures
            self.set(x, y, c).get(x2, y2) == self.get(x2, y2),
    {
        self.lemma_index_in_range(x, y);
        self.lemma_index_in_range(x2, y2);
        if self.index_of(x, y) == self.index_of(x2, y2) {
            self.lemma_index_injective(x, y, x2, y2);
        }
    }
}

/// A canvas: a grid of pixels whose dimensions are fixed when it is made.
pub struct Canvas {
    width: i32,
    height: i32,
    pixels: Vec<Color>,
}

impl View for Canvas {
    type V = Grid;

    closed spec fn view(&self) -> Grid {
        Grid { width: self.width as int, height: self.height as int, pixels: self.pixels@ }
    }
}

impl Canvas {
    #[verifier::type_invariant]
    spec fn inv(&self) -> bool {
        self@.wf()
    }

    /// An all-black canvas of the given dimensions. Neither dimension may be
    /// negative, and the number of pixels must fit the type of a dimension.
    pub fn new(width: i32, height: i32) -> (canvas: Canvas)
        requires
            0 <= width,
            0 <= height,
            width * height <= i32::MAX,
        ensures
            canvas@ == Grid::blank(width as int, height as int),
            canvas@.wf(),
    {
        assert(0 <= width * height) by (nonlinear_arith)
            requires
                0 <= width,
                0 <= height,
        ;
        let count: usize = (width * height) as usize;
        let pixels: Vec<Color> = vec![Color::black(); count];
        assert(pixels@ =~= Grid::blank(width as int, height as int).pixels);
        Canvas { width, height, pixels }
    }

    /// The number of columns.
    pub fn width(&self) -> (w: i32)
        ensures
            w == self@.width,
            self@.wf(),
    {
        proof {
            use_type_invariant(self);
        }
        self.width
    }

    /// The number of rows.
    pub fn height(&self) -> (h: i32)
        ensures
            h == self@.height,
            self@.wf(),
    {
        proof {
            use_type_invariant(self);
        }
        self.height
    }

    /// Where the pixel at column `x` of row `y` is stored.
    fn offset(&self, x: i32, y: i32) -> (i: usize)
        requires
            self@.contains(x as int, y as int),
        ensures
            i == self@.index_of(x as int, y as int),
            i < self.pixels@.len(),
        no_unwind
    {
        let row: usize = y as usize;
        let columns: usize = self.width as usize;
        proof {
            use_type_invariant(self);
            self@.lemma_index_in_range(x as int, y as int);
            assert(self.pixels.len() == self.pixels@.len());
            assert(row * columns == y * self.width && 0 <= row * columns) by (nonlinear_arith)
                requires
                    row == y,
                    columns == self.width,
                    0 <= y,
                    0 <= self.width,
            ;
        }
        row * columns + x as usize
    }

    /// The pixel at column `x` of row `y`.
    pub fn get_pixel(&self, x: i32, y: i32) -> (c: Color)
        requires
            self@.contains(x as int, y as int),
        ensures
            c == self@.get(x as int, y as int),
    {
        let i: usize = self.offset(x, y);
        self.pixels[i]
    }

    /// Replaces the pixel at column `x` of row `y` by `c`.
    pub fn set_pixel(&mut self, x: i32, y: i32, c: Color)
        requires
            old(self)@.contains(x as int, y as int),
        ensures
            final(self)@ == old(self)@.set(x as int, y as int, c),
            final(self)@.wf(),
        no_unwind
    {
        proof {
            use_type_invariant(&*self);
        }
        let i: usize = self.offset(x, y);
        self.pixels[i] = c;
    }
}

} // verus!
