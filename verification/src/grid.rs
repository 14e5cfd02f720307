use vstd::arithmetic::div_mod::lemma_fundamental_div_mod;
use vstd::arithmetic::div_mod::lemma_fundamental_div_mod_converse;
use vstd::prelude::*;

verus! {

/// What a grid holds: its dimensions and its samples, row after row.
pub struct GridView {
    pub width: nat,
    pub height: nat,
    pub samples: Seq<u8>,
}

impl GridView {
    /// There is exactly one sample for every pixel.
    pub open spec fn wf(self) -> bool {
        self.samples.len() == self.width * self.height
    }

    /// The pixel `(x, y)` lies inside the grid.
    pub open spec fn contains(self, x: int, y: int) -> bool {
        0 <= x < self.width && 0 <= y < self.height
    }

    /// The pixel `(x, y)` has all eight neighbours inside the grid: it is
    /// not on the outer ring, and its 3x3 window lies inside the grid.
    pub open spec fn interior(self, x: int, y: int) -> bool {
        is_interior(self.width, self.height, x, y)
    }

    /// The sample at pixel `(x, y)`.
    pub open spec fn at(self, x: int, y: int) -> int {
        self.samples[y * self.width + x] as int
    }

    /// Column of the pixel stored at position `i`.
    pub open spec fn col(self, i: int) -> int {
        i % (self.width as int)
    }

    /// Row of the pixel stored at position `i`.
    pub open spec fn row(self, i: int) -> int {
        i / (self.width as int)
    }

    /// Two grids have the same dimensions.
    pub open spec fn same_shape(self, other: GridView) -> bool {
        self.width == other.width && self.height == other.height
    }

    /// Every sample equals `value`.
    pub open spec fn uniform(self, value: int) -> bool {
        forall|i: int| 0 <= i < self.samples.len() ==> self.samples[i] as int == value
    }
}

/// The pixel `(x, y)` of a grid of these dimensions has all eight
/// neighbours inside it.
pub open spec fn is_interior(width: nat, height: nat, x: int, y: int) -> bool {
    1 <= x < width - 1 && 1 <= y < height - 1
}

/// The grid of the given dimensions whose sample at `(x, y)` is `f(x, y)`.
pub open spec fn grid_of(width: nat, height: nat, f: spec_fn(int, int) -> u8) -> GridView {
    GridView {
        width,
        height,
        samples: Seq::new(width * height, |i: int| f(i % (width as int), i / (width as int))),
    }
}

/// Position `i` of a `width` by `height` grid is the pixel in column
/// `i % width` of row `i / width`, and that pixel lies inside the grid.
pub proof fn lemma_position_to_pixel(i: int, width: int, height: int)
    requires
        0 <= i < width * height,
        0 <= width,
        0 <= height,
    ensures
        0 < width,
        0 <= i % width < width,
        0 <= i / width < height,
        (i / width) * width + i % width == i,
{
    assert(0 < width) by (nonlinear_arith)
        requires
            0 <= i < width * height,
            0 <= width,
    ;
    lemma_fundamental_div_mod(i, width);
    let q = i / width;
    let r = i % width;
    assert(q * width == width * q) by (nonlinear_arith);
    assert(0 <= q < height) by (nonlinear_arith)
        requires
            0 <= i < width * height,
            0 < width,
            0 <= r < width,
            i == width * q + r,
    ;
}

/// Pixel `(x, y)` of a `width` by `height` grid is stored at position
/// `y * width + x`, from which the pixel is found again.
pub proof fn lemma_pixel_to_position(x: int, y: int, width: int, height: int)
    requires
        0 <= x < width,
        0 <= y < height,
    ensures
        0 <= y * width + x < width * height,
        (y * width + x) % width == x,
        (y * width + x) / width == y,
{
    assert(0 <= y * width + x < width * height) by (nonlinear_arith)
        requires
            0 <= x < width,
            0 <= y < height,
    ;
    assert(y * width + x == width * y + x) by (nonlinear_arith);
    lemma_fundamental_div_mod_converse(y * width + x, width, y, x);
}

/// In a grid made by `grid_of`, the sample at `(x, y)` is `f(x, y)`.
pub proof fn lemma_grid_of_at(width: nat, height: nat, f: spec_fn(int, int) -> u8, x: int, y: int)
    requires
        0 <= x < width,
        0 <= y < height,
    ensures
        grid_of(width, height, f).wf(),
        grid_of(width, height, f).at(x, y) == f(x, y),
{
    lemma_pixel_to_position(x, y, width as int, height as int);
}

/// A rectangular field of 8-bit intensity samples in row-major order.
///
/// A grid never changes once it is made: every stage of a pipeline allocates
/// the grid that it returns.
#[derive(Debug)]
pub struct Grid {
    width: u32,
    height: u32,
    samples: Vec<u8>,
}

impl View for Grid {
    type V = GridView;

    open spec fn view(&self) -> GridView {
        self.content()
    }
}

impl Grid {
    /// Dimensions and samples as mathematical values.
    pub closed spec fn content(&self) -> GridView {
        GridView {
            width: self.width as nat,
            height: self.height as nat,
            samples: self.samples@,
        }
    }

    #[verifier::type_invariant]
    spec fn sample_count_matches(&self) -> bool {
        self.samples@.len() == self.width * self.height
    }

    /// Makes a grid from row-major samples. There must be one sample for each
    /// pixel, neither more nor fewer.
    pub fn new(width: u32, height: u32, samples: Vec<u8>) -> (made: Option<Grid>)
        ensures
            made is Some <==> samples@.len() == width * height,
            made matches Some(g) ==> g@ == (GridView {
                width: width as nat,
                height: height as nat,
                samples: samples@,
            }),
    {
        assert(0 <= width * height <= u64::MAX) by (nonlinear_arith)
            requires
                0 <= width <= u32::MAX,
                0 <= height <= u32::MAX,
        ;
        let wanted: u64 = (width as u64) * (height as u64);
        if samples.len() as u64 == wanted {
            Some(Grid { width, height, samples })
        } else {
            None
        }
    }

    /// Number of columns.
    pub fn width(&self) -> (w: u32)
        ensures
            w == self@.width,
            self@.wf(),
    {
        proof {
            use_type_invariant(self);
        }
        self.width
    }

    /// Number of rows.
    pub fn height(&self) -> (h: u32)
        ensures
            h == self@.height,
            self@.wf(),
    {
        proof {
            use_type_invariant(self);
        }
        self.height
    }

    /// Number of samples, which is width times height.
    pub fn len(&self) -> (n: usize)
        ensures
            n == self@.samples.len(),
            n == self@.width * self@.height,
            self@.wf(),
    {
        proof {
            use_type_invariant(self);
        }
        self.samples.len()
    }

    /// The samples in row-major order.
    pub fn samples(&self) -> (s: &Vec<u8>)
        ensures
            s@ == self@.samples,
            self@.wf(),
    {
        proof {
            use_type_invariant(self);
        }
        &self.samples
    }

    /// The sample stored at position `i`.
    pub fn sample(&self, i: usize) -> (v: u8)
        requires
            i < self@.samples.len(),
        ensures
            v == self@.samples[i as int],
    {
        self.samples[i]
    }

    /// The sample at pixel `(x, y)`.
    pub fn get(&self, x: u32, y: u32) -> (v: u8)
        requires
            self@.contains(x as int, y as int),
        ensures
            v as int == self@.at(x as int, y as int),
    {
        let n: usize = self.samples.len();
        proof {
            use_type_invariant(self);
            lemma_pixel_to_position(x as int, y as int, self.width as int, self.height as int);
            assert(0 <= y * self.width) by (nonlinear_arith)
                requires
                    0 <= y,
                    0 <= self.width,
            ;
            assert(y * self.width + x < n);
        }
        let i: usize = (y as usize) * (self.width as usize) + (x as usize);
        self.samples[i]
    }
}

} // verus!
