use crate::error::DetectError;
use crate::fraction::Fraction;
use crate::grid::grid_of;
use crate::grid::lemma_pixel_to_position;
use crate::grid::lemma_position_to_pixel;
use crate::grid::Grid;
use crate::grid::GridView;
use vstd::prelude::*;

verus! {

/// What a kernel holds: a square of `size` by `size` integer weights and the
/// positive divisor that they share. The weight for the offset `(i, j)` from
/// the centre, with `i` along x and `j` along y, is stored at position
/// `(i + size / 2) * size + (j + size / 2)` and stands for
/// `weights[..] / divisor`.
pub struct KernelView {
    pub size: nat,
    pub weights: Seq<i32>,
    pub divisor: nat,
}

/// The sum of the first `n` weights.
pub open spec fn sum_weights(weights: Seq<i32>, n: int) -> int
    decreases n,
{
    if n <= 0 {
        0
    } else {
        sum_weights(weights, n - 1) + weights[n - 1]
    }
}

impl KernelView {
    /// The size is odd, there is one weight for each cell, and the divisor is
    /// positive.
    pub open spec fn wf(self) -> bool {
        &&& self.size % 2 == 1
        &&& self.weights.len() == self.size * self.size
        &&& self.divisor > 0
    }

    /// Half the size, rounded down: offsets run from `-radius` to `radius`.
    pub open spec fn radius(self) -> int {
        (self.size / 2) as int
    }

    /// The sum of all the weights.
    pub open spec fn weight_sum(self) -> int {
        sum_weights(self.weights, self.weights.len() as int)
    }

    /// The weights sum to exactly one, that is to the divisor.
    pub open spec fn normalized(self) -> bool {
        self.weight_sum() == self.divisor
    }

    /// Position of the centre weight.
    pub open spec fn centre(self) -> int {
        self.radius() * self.size + self.radius()
    }

    /// Every weight is zero but the centre, which is one: it equals the
    /// divisor.
    pub open spec fn is_identity(self) -> bool {
        forall|t: int|
            0 <= t < self.weights.len() ==> #[trigger] self.weights[t] as int == (if t
                == self.centre() {
                self.divisor as int
            } else {
                0
            })
    }
}

/// What the cell at position `t` of the kernel adds at pixel `(x, y)`: the
/// sample under it times its weight, or nothing where the cell lies outside
/// the grid.
pub open spec fn tap(g: GridView, k: KernelView, x: int, y: int, t: int) -> int {
    let i = t / (k.size as int) - k.radius();
    let j = t % (k.size as int) - k.radius();
    if g.contains(x + i, y + j) {
        g.at(x + i, y + j) * k.weights[t]
    } else {
        0
    }
}

/// The contributions of the first `n` cells of the kernel at pixel `(x, y)`.
pub open spec fn tap_sum(g: GridView, k: KernelView, x: int, y: int, n: int) -> int
    decreases n,
{
    if n <= 0 {
        0
    } else {
        tap_sum(g, k, x, y, n - 1) + tap(g, k, x, y, n - 1)
    }
}

/// The weighted sum of the samples around `(x, y)` that lie inside the grid.
pub open spec fn weighted_sum(g: GridView, k: KernelView, x: int, y: int) -> int {
    tap_sum(g, k, x, y, k.weights.len() as int)
}

/// A weighted sum brought back to a sample: divided by the divisor, the
/// fraction dropped, and held to the range 0 to 255.
pub open spec fn to_sample(sum: int, divisor: int) -> u8 {
    if sum <= 0 {
        0
    } else if sum / divisor >= 255 {
        255
    } else {
        (sum / divisor) as u8
    }
}

/// The grid convolved with the kernel.
pub open spec fn convolved(g: GridView, k: KernelView) -> GridView {
    grid_of(g.width, g.height, |x: int, y: int| to_sample(weighted_sum(g, k, x, y), k.divisor as int))
}

/// Why a kernel of these parts cannot be made, if it cannot.
pub open spec fn kernel_fault(size: nat, count: nat, divisor: int) -> Option<DetectError> {
    if size % 2 == 0 {
        Some(DetectError::InvalidKernelSize)
    } else if count != size * size || divisor <= 0 {
        Some(DetectError::InvalidParameter)
    } else {
        None
    }
}

proof fn lemma_identity_tap_sum(g: GridView, k: KernelView, x: int, y: int, n: int)
    requires
        g.wf(),
        k.wf(),
        k.is_identity(),
        g.contains(x, y),
        0 <= n <= k.weights.len(),
    ensures
        0 <= k.centre() < k.weights.len(),
        tap_sum(g, k, x, y, n) == (if n > k.centre() {
            g.at(x, y) * k.divisor
        } else {
            0
        }),
    decreases n,
{
    let size = k.size as int;
    let r = k.radius();
    lemma_pixel_to_position(r, r, size, size);
    if n > 0 {
        lemma_identity_tap_sum(g, k, x, y, n - 1);
        let t = n - 1;
        let w = k.weights[t] as int;
        if t == k.centre() {
            assert(tap(g, k, x, y, t) == g.at(x, y) * k.divisor);
        } else {
            assert(w == 0);
            let near = g.at(x + t / size - r, y + t % size - r);
            assert(near * w == 0) by (nonlinear_arith)
                requires
                    w == 0,
            ;
            assert(tap(g, k, x, y, t) == 0);
        }
    }
}

/// Convolution with the identity kernel, whose weights are all zero but the
/// centre weight of one, gives the input back unchanged.
pub proof fn lemma_identity_kernel_returns_input(g: GridView, k: KernelView)
    requires
        g.wf(),
        k.wf(),
        k.is_identity(),
    ensures
        convolved(g, k) == g,
{
    let out = convolved(g, k);
    let d = k.divisor as int;
    assert forall|p: int| 0 <= p < g.samples.len() implies out.samples[p] == g.samples[p] by {
        lemma_position_to_pixel(p, g.width as int, g.height as int);
        let x = p % (g.width as int);
        let y = p / (g.width as int);
        lemma_identity_tap_sum(g, k, x, y, k.weights.len() as int);
        let s = g.at(x, y);
        assert(s == g.samples[p] as int);
        assert(weighted_sum(g, k, x, y) == s * d);
        assert(s * d > 0 <==> s > 0) by (nonlinear_arith)
            requires
                d > 0,
                s >= 0,
        ;
        assert((s * d) / d == s) by (nonlinear_arith)
            requires
                d > 0,
        ;
    }
    assert(out.samples =~= g.samples);
}

/// A square matrix of weights of odd size, to be convolved over a grid.
#[derive(Debug)]
pub struct Kernel {
    size: usize,
    weights: Vec<i32>,
    divisor: i128,
}

impl View for Kernel {
    type V = KernelView;

    open spec fn view(&self) -> KernelView {
        self.content()
    }
}

impl Kernel {
    /// Size, weights and divisor as mathematical values.
    pub closed spec fn content(&self) -> KernelView {
        KernelView { size: self.size as nat, weights: self.weights@, divisor: self.divisor as nat }
    }

    #[verifier::type_invariant]
    spec fn well_formed(&self) -> bool {
        &&& self.size % 2 == 1
        &&& self.weights@.len() == self.size * self.size
        &&& self.divisor > 0
    }

    /// A kernel of the given odd size with the given weights, each standing
    /// for itself over `divisor`.
    ///
    /// An even size is refused as `InvalidKernelSize`. With an odd size, a
    /// number of weights other than size times size, or a divisor of zero, is
    /// refused as `InvalidParameter`.
    pub fn new(size: usize, weights: Vec<i32>, divisor: u64) -> (made: Result<Kernel, DetectError>)
        ensures
            match made {
                Ok(k) => kernel_fault(size as nat, weights@.len(), divisor as int) is None && k@ == (
                KernelView { size: size as nat, weights: weights@, divisor: divisor as nat }),
                Err(e) => kernel_fault(size as nat, weights@.len(), divisor as int) == Some(e),
            },
    {
        if size % 2 == 0 {
            return Err(DetectError::InvalidKernelSize);
        }
        assert(0 <= size * size <= u128::MAX) by (nonlinear_arith)
            requires
                0 <= size <= u64::MAX,
        ;
        let cells: u128 = (size as u128) * (size as u128);
        if weights.len() as u128 != cells || divisor == 0 {
            return Err(DetectError::InvalidParameter);
        }
        Ok(Kernel { size, weights, divisor: divisor as i128 })
    }

    /// A kernel of the given odd size whose weights are the given ones
    /// divided by their sum, so that they sum to one.
    ///
    /// An even size is refused as `InvalidKernelSize`. With an odd size, a
    /// number of weights other than size times size, or weights whose sum is
    /// not positive, are refused as `InvalidParameter`.
    pub fn normalized(size: usize, weights: Vec<i32>) -> (made: Result<Kernel, DetectError>)
        ensures
            match made {
                Ok(k) => {
                    &&& kernel_fault(
                        size as nat,
                        weights@.len(),
                        sum_weights(weights@, weights@.len() as int),
                    ) is None
                    &&& k@ == (KernelView {
                        size: size as nat,
                        weights: weights@,
                        divisor: sum_weights(weights@, weights@.len() as int) as nat,
                    })
                    &&& k@.wf()
                    &&& k@.normalized()
                },
                Err(e) => kernel_fault(
                    size as nat,
                    weights@.len(),
                    sum_weights(weights@, weights@.len() as int),
                ) == Some(e),
            },
    {
        if size % 2 == 0 {
            return Err(DetectError::InvalidKernelSize);
        }
        assert(0 <= size * size <= u128::MAX) by (nonlinear_arith)
            requires
                0 <= size <= u64::MAX,
        ;
        let cells: u128 = (size as u128) * (size as u128);
        if weights.len() as u128 != cells {
            return Err(DetectError::InvalidParameter);
        }
        let count: usize = weights.len();
        let mut total: i128 = 0;
        let mut t: usize = 0;
        while t < count
            invariant
                t <= count,
                count == weights@.len(),
                total == sum_weights(weights@, t as int),
                -t * 0x8000_0000 <= total <= t * 0x8000_0000,
            decreases count - t,
        {
            total = total + weights[t] as i128;
            t = t + 1;
        }
        if total <= 0 {
            return Err(DetectError::InvalidParameter);
        }
        Ok(Kernel { size, weights, divisor: total })
    }

    /// Number of rows, which is the number of columns.
    pub fn size(&self) -> (n: usize)
        ensures
            n == self@.size,
            self@.wf(),
    {
        proof {
            use_type_invariant(self);
        }
        self.size
    }

    /// The common divisor of the weights.
    pub fn divisor(&self) -> (d: i128)
        ensures
            d == self@.divisor,
            self@.wf(),
    {
        proof {
            use_type_invariant(self);
        }
        self.divisor
    }

    /// The weights, column offset by column offset.
    pub fn weights(&self) -> (w: &Vec<i32>)
        ensures
            w@ == self@.weights,
            self@.wf(),
    {
        proof {
            use_type_invariant(self);
        }
        &self.weights
    }

    /// The weighted sum of the samples of `image` around `(x, y)`, cells
    /// outside the image left out.
    fn sum_at(&self, image: &Grid, x: u32, y: u32) -> (acc: i128)
        requires
            image@.contains(x as int, y as int),
        ensures
            acc == weighted_sum(image@, self@, x as int, y as int),
    {
        proof {
            use_type_invariant(self);
        }
        let width: u32 = image.width();
        let height: u32 = image.height();
        let size: usize = self.size;
        let count: usize = self.weights.len();
        assert(size < 0x1_0000_0000) by (nonlinear_arith)
            requires
                size * size == count,
                count <= u64::MAX,
                0 <= size,
        ;
        let radius: i64 = (size / 2) as i64;
        let mut acc: i128 = 0;
        let mut t: usize = 0;
        while t < count
            invariant
                t <= count,
                count == self.weights@.len(),
                count == size * size,
                size == self.size,
                size < 0x1_0000_0000,
                size % 2 == 1,
                radius == size / 2,
                width == image@.width,
                height == image@.height,
                image@.wf(),
                acc == tap_sum(image@, self@, x as int, y as int, t as int),
                -t * 0x7f_8000_0000 <= acc <= t * 0x7f_8000_0000,
            decreases count - t,
        {
            proof {
                lemma_position_to_pixel(t as int, size as int, size as int);
            }
            let nx: i64 = x as i64 + (t / size) as i64 - radius;
            let ny: i64 = y as i64 + (t % size) as i64 - radius;
            if 0 <= nx && nx < width as i64 && 0 <= ny && ny < height as i64 {
                let s: u8 = image.get(nx as u32, ny as u32);
                let w: i32 = self.weights[t];
                assert(-255 * 0x8000_0000 <= (s as int) * (w as int) <= 255 * 0x8000_0000)
                    by (nonlinear_arith)
                    requires
                        0 <= s <= 255,
                        -0x8000_0000 <= w < 0x8000_0000,
                ;
                acc = acc + (s as i128) * (w as i128);
            }
            t = t + 1;
        }
        acc
    }
}

/// Convolves `image` with `kernel`: a grid of the same dimensions whose
/// sample at each pixel is the weighted sum of the samples around it, divided
/// by the kernel's divisor and held to the range 0 to 255.
///
/// Cells of the kernel that fall outside the image add nothing, and the
/// weights of the others are used as they are: near the border a smoothing
/// kernel therefore darkens the image.
pub fn convolve(image: &Grid, kernel: &Kernel) -> (out: Grid)
    ensures
        out@ == convolved(image@, kernel@),
{
    let width: u32 = image.width();
    let height: u32 = image.height();
    let count: usize = image.len();
    let divisor: i128 = kernel.divisor();
    let mut samples: Vec<u8> = Vec::new();
    let mut p: usize = 0;
    while p < count
        invariant
            p <= count,
            count == width * height,
            width == image@.width,
            height == image@.height,
            image@.wf(),
            divisor == kernel@.divisor,
            divisor > 0,
            samples@.len() == p,
            forall|q: int|
                0 <= q < p ==> samples@[q] == to_sample(
                    weighted_sum(image@, kernel@, q % (width as int), q / (width as int)),
                    divisor as int,
                ),
        decreases count - p,
    {
        proof {
            lemma_position_to_pixel(p as int, width as int, height as int);
        }
        let x: u32 = (p % (width as usize)) as u32;
        let y: u32 = (p / (width as usize)) as u32;
        let sum: i128 = kernel.sum_at(image, x, y);
        let v: u8 = if sum <= 0 {
            0
        } else if sum / divisor >= 255 {
            255
        } else {
            (sum / divisor) as u8
        };
        samples.push(v);
        p = p + 1;
    }
    let made: Option<Grid> = Grid::new(width, height, samples);
    let out: Grid = made.unwrap();
    assert(out@.samples =~= convolved(image@, kernel@).samples);
    out
}

/// The side of the mask of the Gaussian filter: offsets run from -2 to 2,
/// whatever the width of the bell.
pub const MASK_SIZE: usize = 5;

/// Why the Gaussian filter turns its input down, if it does: a grid without
/// pixels is empty input; a width of the bell that is not positive, a number
/// of weights other than 25, or weights whose sum is not positive, an
/// invalid parameter.
pub open spec fn filter_fault(g: GridView, sigma_num: int, weights: Seq<i32>) -> Option<
    DetectError,
> {
    if g.width == 0 || g.height == 0 {
        Some(DetectError::EmptyInput)
    } else if sigma_num <= 0 {
        Some(DetectError::InvalidParameter)
    } else {
        kernel_fault(MASK_SIZE as nat, weights.len(), sum_weights(weights, weights.len() as int))
    }
}

/// Smooths `image` with a Gaussian bell of width `sigma` on a mask of 5 by 5
/// weights, which are first divided by their sum so that they sum to one.
///
/// `weights` holds the values of the bell at the 25 offsets, scaled to whole
/// numbers by the caller: the value for the offset `(i, j)` at position
/// `(i + 2) * 5 + (j + 2)`. A grid without pixels is refused as
/// `EmptyInput`. A width that is not positive is refused as
/// `InvalidParameter`, and so are a number of weights other than 25 and
/// weights whose sum is not positive.
pub fn apply_gausian_filter(image: &Grid, sigma: Fraction, weights: Vec<i32>) -> (filtered: Result<
    Grid,
    DetectError,
>)
    ensures
        match filtered {
            Ok(out) => {
                &&& filter_fault(image@, sigma.numer(), weights@) is None
                &&& out@ == convolved(
                    image@,
                    KernelView {
                        size: MASK_SIZE as nat,
                        weights: weights@,
                        divisor: sum_weights(weights@, weights@.len() as int) as nat,
                    },
                )
            },
            Err(e) => filter_fault(image@, sigma.numer(), weights@) == Some(e),
        },
        filtered matches Err(e) ==> e != DetectError::InvalidKernelSize,
{
    if image.width() == 0 || image.height() == 0 {
        return Err(DetectError::EmptyInput);
    }
    if sigma.num() <= 0 {
        return Err(DetectError::InvalidParameter);
    }
    match Kernel::normalized(MASK_SIZE, weights) {
        Ok(kernel) => Ok(convolve(image, &kernel)),
        Err(e) => Err(e),
    }
}

} // verus!
