//! Corner scores from the second-moment matrix of a 3x3 window.
//!
//! Derivatives are central differences over two pixels, so a derivative is
//! half a whole number. To stay in whole numbers the difference itself is
//! kept, which is twice the derivative. The sums of products of two
//! differences are four times the entries of the second-moment matrix, their
//! determinant sixteen times its determinant, and their trace four times its
//! trace.

use crate::error::check_detectable;
use crate::error::detector_fault;
use crate::error::DetectError;
use crate::fraction::Fraction;
use crate::grid::grid_of;
use crate::grid::lemma_grid_of_at;
use crate::grid::lemma_pixel_to_position;
use crate::grid::lemma_position_to_pixel;
use crate::grid::Grid;
use crate::grid::GridView;
use crate::pixel_ops::invert;
use crate::pixel_ops::inverted;
use vstd::prelude::*;

verus! {

/// Twice the derivative along x at `(x, y)`: the sample to the right less
/// the sample to the left, where a neighbour outside the grid is replaced by
/// the pixel itself.
pub open spec fn difference_x(g: GridView, x: int, y: int) -> int {
    g.at(if x < g.width - 1 { x + 1 } else { x }, y) - g.at(if x > 0 { x - 1 } else { x }, y)
}

/// Twice the derivative along y at `(x, y)`: the sample below less the
/// sample above, where a neighbour outside the grid is replaced by the pixel
/// itself.
pub open spec fn difference_y(g: GridView, x: int, y: int) -> int {
    g.at(x, if y < g.height - 1 { y + 1 } else { y }) - g.at(x, if y > 0 { y - 1 } else { y })
}

/// Twice the derivative of `image` along x at `(x, y)`, by central
/// difference, one-sided at the border.
pub fn ix(image: &Grid, x: u32, y: u32) -> (d: i32)
    requires
        image@.contains(x as int, y as int),
    ensures
        d == difference_x(image@, x as int, y as int),
        -255 <= d <= 255,
{
    let width: u32 = image.width();
    let x1: u32 = if x > 0 {
        x - 1
    } else {
        x
    };
    let x2: u32 = if x < width - 1 {
        x + 1
    } else {
        x
    };
    image.get(x2, y) as i32 - image.get(x1, y) as i32
}

/// Twice the derivative of `image` along y at `(x, y)`, by central
/// difference, one-sided at the border.
pub fn iy(image: &Grid, x: u32, y: u32) -> (d: i32)
    requires
        image@.contains(x as int, y as int),
    ensures
        d == difference_y(image@, x as int, y as int),
        -255 <= d <= 255,
{
    let height: u32 = image.height();
    let y1: u32 = if y > 0 {
        y - 1
    } else {
        y
    };
    let y2: u32 = if y < height - 1 {
        y + 1
    } else {
        y
    };
    image.get(x, y2) as i32 - image.get(x, y1) as i32
}

/// The sums of a second-moment matrix: `xx` and `yy` on the diagonal, `xy`
/// off it.
pub struct MomentView {
    pub xx: int,
    pub xy: int,
    pub yy: int,
}

/// One product of differences at a pixel: x with x for `which` 0, x with y
/// for 1, y with y for 2.
pub open spec fn product_at(g: GridView, x: int, y: int, which: int) -> int {
    let dx = difference_x(g, x, y);
    let dy = difference_y(g, x, y);
    if which == 0 {
        dx * dx
    } else if which == 1 {
        dx * dy
    } else {
        dy * dy
    }
}

/// The sum of one product over the first `n` pixels of the 3x3 window
/// around `(x, y)`, row after row.
pub open spec fn window_sum(g: GridView, x: int, y: int, which: int, n: int) -> int
    decreases n,
{
    if n <= 0 {
        0
    } else {
        window_sum(g, x, y, which, n - 1) + product_at(
            g,
            x + (n - 1) % 3 - 1,
            y + (n - 1) / 3 - 1,
            which,
        )
    }
}

/// The sums of the products of differences over the 3x3 window around
/// `(x, y)`: four times the second-moment matrix there.
pub open spec fn moments(g: GridView, x: int, y: int) -> MomentView {
    MomentView {
        xx: window_sum(g, x, y, 0, 9),
        xy: window_sum(g, x, y, 1, 9),
        yy: window_sum(g, x, y, 2, 9),
    }
}

/// `xx * yy - xy * xy`: sixteen times the determinant of the matrix.
pub open spec fn determinant(m: MomentView) -> int {
    m.xx * m.yy - m.xy * m.xy
}

/// `xx + yy`: four times the trace of the matrix.
pub open spec fn trace_of(m: MomentView) -> int {
    m.xx + m.yy
}

/// The Harris response `det - k * trace^2` with `k` = 0.04, times 400:
/// `25 * determinant - trace_of^2`, a whole number.
pub open spec fn harris_score(m: MomentView) -> int {
    25 * determinant(m) - trace_of(m) * trace_of(m)
}

/// The smaller eigenvalue of the matrix is greater than `num / den`.
///
/// That is so exactly where `num / den` is less than the mean of the two
/// eigenvalues, which is half the trace, and the characteristic polynomial
/// `t^2 - trace * t + det` is positive at it. Both are stated here times
/// positive whole numbers, over the sums that the view holds.
pub open spec fn least_eigenvalue_exceeds(m: MomentView, num: int, den: int) -> bool {
    &&& den * trace_of(m) > 8 * num
    &&& 16 * (num * num) - 4 * ((trace_of(m) * num) * den) + determinant(m) * (den * den) > 0
}

/// The largest value of a sum of nine products of two differences.
pub const MOMENT_LIMIT: i64 = 585_225;

/// The second-moment sums of a 3x3 window of an image.
#[derive(Clone, Copy, Debug)]
pub struct MomentMatrix {
    xx: i64,
    xy: i64,
    yy: i64,
}

impl View for MomentMatrix {
    type V = MomentView;

    open spec fn view(&self) -> MomentView {
        self.content()
    }
}

impl MomentMatrix {
    /// The three sums as mathematical values.
    pub closed spec fn content(&self) -> MomentView {
        MomentView { xx: self.xx as int, xy: self.xy as int, yy: self.yy as int }
    }

    #[verifier::type_invariant]
    spec fn within_limits(&self) -> bool {
        &&& 0 <= self.xx <= MOMENT_LIMIT
        &&& 0 <= self.yy <= MOMENT_LIMIT
        &&& -MOMENT_LIMIT <= self.xy <= MOMENT_LIMIT
    }

    /// The sum of the squared differences along x.
    pub fn xx(&self) -> (sum: i64)
        ensures
            sum == self@.xx,
    {
        self.xx
    }

    /// The sum of the products of the two differences.
    pub fn xy(&self) -> (sum: i64)
        ensures
            sum == self@.xy,
    {
        self.xy
    }

    /// The sum of the squared differences along y.
    pub fn yy(&self) -> (sum: i64)
        ensures
            sum == self@.yy,
    {
        self.yy
    }
}

/// The second-moment sums of the 3x3 window around the interior pixel
/// `(x, y)`.
pub fn moment_matrix(image: &Grid, x: u32, y: u32) -> (m: MomentMatrix)
    requires
        image@.interior(x as int, y as int),
    ensures
        m@ == moments(image@, x as int, y as int),
{
    let width: u32 = image.width();
    let height: u32 = image.height();
    let mut sum_ix2: i64 = 0;
    let mut sum_iy2: i64 = 0;
    let mut sum_ixiy: i64 = 0;
    let mut t: u32 = 0;
    while t < 9
        invariant
            t <= 9,
            width == image@.width,
            height == image@.height,
            image@.interior(x as int, y as int),
            sum_ix2 == window_sum(image@, x as int, y as int, 0, t as int),
            sum_ixiy == window_sum(image@, x as int, y as int, 1, t as int),
            sum_iy2 == window_sum(image@, x as int, y as int, 2, t as int),
            0 <= sum_ix2 <= t * 65025,
            0 <= sum_iy2 <= t * 65025,
            -t * 65025 <= sum_ixiy <= t * 65025,
        decreases 9 - t,
    {
        let px: u32 = x + t % 3 - 1;
        let py: u32 = y + t / 3 - 1;
        let dx: i64 = ix(image, px, py) as i64;
        let dy: i64 = iy(image, px, py) as i64;
        assert(0 <= dx * dx <= 65025 && 0 <= dy * dy <= 65025 && -65025 <= dx * dy <= 65025)
            by (nonlinear_arith)
            requires
                -255 <= dx <= 255,
                -255 <= dy <= 255,
        ;
        sum_ix2 = sum_ix2 + dx * dx;
        sum_iy2 = sum_iy2 + dy * dy;
        sum_ixiy = sum_ixiy + dx * dy;
        t = t + 1;
    }
    MomentMatrix { xx: sum_ix2, xy: sum_ixiy, yy: sum_iy2 }
}

/// Sixteen times the determinant of the second-moment matrix:
/// `xx * yy - xy * xy` over the sums.
pub fn det(m: &MomentMatrix) -> (d: i64)
    ensures
        d == determinant(m@),
        -342_488_300_625 <= d <= 342_488_300_625,
{
    proof {
        use_type_invariant(m);
    }
    let xx: i64 = m.xx;
    let xy: i64 = m.xy;
    let yy: i64 = m.yy;
    assert(0 <= xx * yy <= 342_488_300_625 && 0 <= xy * xy <= 342_488_300_625)
        by (nonlinear_arith)
        requires
            0 <= xx <= 585_225,
            0 <= yy <= 585_225,
            -585_225 <= xy <= 585_225,
    ;
    xx * yy - xy * xy
}

/// Four times the trace of the second-moment matrix: `xx + yy` over the
/// sums.
pub fn trace(m: &MomentMatrix) -> (t: i64)
    ensures
        t == trace_of(m@),
        0 <= t <= 1_170_450,
{
    proof {
        use_type_invariant(m);
    }
    m.xx + m.yy
}

/// The Harris response of the matrix, `det - 0.04 * trace^2`, times 400.
pub fn harris_response(m: &MomentMatrix) -> (r: i64)
    ensures
        r == harris_score(m@),
        -10_000_000_000_000 <= r <= 10_000_000_000_000,
{
    let d: i64 = det(m);
    let t: i64 = trace(m);
    assert(0 <= t * t <= 1_369_953_202_500) by (nonlinear_arith)
        requires
            0 <= t <= 1_170_450,
    ;
    25 * d - t * t
}

/// Tells whether the smaller eigenvalue of the second-moment matrix is
/// greater than `threshold`.
pub fn least_eigenvalue_above(m: &MomentMatrix, threshold: Fraction) -> (above: bool)
    ensures
        above == least_eigenvalue_exceeds(m@, threshold.numer(), threshold.denom()),
{
    let n: i128 = threshold.num() as i128;
    let d: i128 = threshold.den() as i128;
    let t: i128 = trace(m) as i128;
    let dt: i128 = det(m) as i128;
    assert(0 <= d * t <= 0x1_0000_0000 * 1_170_450) by (nonlinear_arith)
        requires
            0 < d < 0x1_0000_0000,
            0 <= t <= 1_170_450,
    ;
    if d * t <= 8 * n {
        return false;
    }
    assert(0 <= n * n <= 0x4000_0000_0000_0000) by (nonlinear_arith)
        requires
            -0x8000_0000 <= n < 0x8000_0000,
    ;
    assert(-0x8000_0000 * 1_170_450 <= t * n <= 0x8000_0000 * 1_170_450) by (nonlinear_arith)
        requires
            -0x8000_0000 <= n < 0x8000_0000,
            0 <= t <= 1_170_450,
    ;
    let tn: i128 = t * n;
    assert(-0x8000_0000 * 1_170_450 * 0x1_0000_0000 <= tn * d <= 0x8000_0000 * 1_170_450
        * 0x1_0000_0000) by (nonlinear_arith)
        requires
            -0x8000_0000 * 1_170_450 <= tn <= 0x8000_0000 * 1_170_450,
            0 < d < 0x1_0000_0000,
    ;
    assert(0 <= d * d <= 0x1_0000_0000_0000_0000) by (nonlinear_arith)
        requires
            0 < d < 0x1_0000_0000,
    ;
    let dd: i128 = d * d;
    assert(-342_488_300_625 * 0x1_0000_0000_0000_0000 <= dt * dd <= 342_488_300_625
        * 0x1_0000_0000_0000_0000) by (nonlinear_arith)
        requires
            -342_488_300_625 <= dt <= 342_488_300_625,
            0 <= dd <= 0x1_0000_0000_0000_0000,
    ;
    16 * (n * n) - 4 * (tn * d) + dt * dd > 0
}

/// The Harris score at `(x, y)`: that of the window's moments where the
/// whole 3x3 window lies inside the grid, and 0, the default, on the outer
/// ring.
pub open spec fn response_at(g: GridView, x: int, y: int) -> int {
    if g.interior(x, y) {
        harris_score(moments(g, x, y))
    } else {
        0
    }
}

/// The pixel stored at position `p` has its whole window inside the grid.
pub open spec fn evaluated(g: GridView, p: int) -> bool {
    g.interior(g.col(p), g.row(p))
}

/// The Harris score of the pixel stored at position `p`.
pub open spec fn response_of(g: GridView, p: int) -> int {
    response_at(g, g.col(p), g.row(p))
}

/// The least and the greatest score among the evaluated pixels stored
/// before position `n`, if there is any.
pub open spec fn range_upto(g: GridView, n: int) -> Option<(int, int)>
    decreases n,
{
    if n <= 0 {
        None
    } else if !evaluated(g, n - 1) {
        range_upto(g, n - 1)
    } else {
        let r = response_of(g, n - 1);
        match range_upto(g, n - 1) {
            None => Some((r, r)),
            Some((lo, hi)) => Some((if r < lo { r } else { lo }, if r > hi { r } else { hi })),
        }
    }
}

/// The least and the greatest score among all evaluated pixels, if there is
/// any.
pub open spec fn response_range(g: GridView) -> Option<(int, int)> {
    range_upto(g, g.samples.len() as int)
}

/// A score rescaled linearly so that the least score becomes 0 and the
/// greatest 255: `(r - lo) * 255 / (hi - lo)` with the fraction dropped, held
/// to the range 0 to 255 for a score outside the range. Where all scores are
/// equal, or there is none, every score becomes 0.
pub open spec fn normalized_sample(r: int, range: Option<(int, int)>) -> u8 {
    match range {
        None => 0,
        Some((lo, hi)) => if hi <= lo || r <= lo {
            0
        } else if r >= hi {
            255
        } else {
            (((r - lo) * 255) / (hi - lo)) as u8
        },
    }
}

/// A range of scores as mathematical values.
pub open spec fn range_of(bounds: Option<(i64, i64)>) -> Option<(int, int)> {
    match bounds {
        None => None,
        Some((lo, hi)) => Some((lo as int, hi as int)),
    }
}

/// Rescales a score linearly so that the least score of the range becomes 0
/// and the greatest 255, drops the fraction and holds the result to the
/// range 0 to 255. Where the two ends of the range are equal, or there is no
/// range, the result is 0.
pub fn rescale(r: i64, bounds: Option<(i64, i64)>) -> (sample: u8)
    ensures
        sample == normalized_sample(r as int, range_of(bounds)),
{
    match bounds {
        None => 0,
        Some((lo, hi)) => {
            if hi <= lo || r <= lo {
                0
            } else if r >= hi {
                255
            } else {
                let above: i128 = (r as i128 - lo as i128) * 255;
                let span: i128 = hi as i128 - lo as i128;
                assert(0 <= above / span < 255) by (nonlinear_arith)
                    requires
                        0 < above < span * 255,
                        0 < span,
                ;
                (above / span) as u8
            }
        },
    }
}

/// The Harris scores of a grid rescaled to samples.
pub open spec fn normalized_field(g: GridView) -> GridView {
    grid_of(
        g.width,
        g.height,
        |x: int, y: int| normalized_sample(response_at(g, x, y), response_range(g)),
    )
}

/// The sample of the Harris corner image at `(x, y)`: the rescaled score,
/// inverted, where the whole 3x3 window lies inside the grid, and 0, the
/// default, on the outer ring.
pub open spec fn harris_at(g: GridView, x: int, y: int) -> u8 {
    if g.interior(x, y) {
        (255 - normalized_sample(response_at(g, x, y), response_range(g))) as u8
    } else {
        0
    }
}

/// The Harris corner image of a grid: on the evaluated pixels the rescaled
/// scores, inverted, so that the strongest response is darkest; on the outer
/// ring the default 0.
pub open spec fn harris_field(g: GridView) -> GridView {
    grid_of(g.width, g.height, |x: int, y: int| harris_at(g, x, y))
}

/// The Harris corner image of `image`, or the reason why there is none.
///
/// Every pixel whose 3x3 window lies inside the image is scored with
/// `det - 0.04 * trace^2` of its second-moment matrix. The scores of these
/// pixels are rescaled linearly, the least to 0 and the greatest to 255, and
/// the scale is inverted: a strong corner comes out dark. Where all scores
/// are equal, every evaluated pixel comes out as 255. The pixels of the
/// outer ring are not scored and keep the default 0.
///
/// A grid without pixels is refused as `EmptyInput`, and one under three
/// pixels wide or high, which has no pixel to score, as `InvalidParameter`.
pub fn harris_corner_detection(image: &Grid) -> (found: Result<Grid, DetectError>)
    ensures
        match found {
            Ok(corners) => detector_fault(image@) is None && corners@ == harris_field(image@),
            Err(e) => detector_fault(image@) == Some(e),
        },
{
    match check_detectable(image) {
        Some(e) => {
            return Err(e);
        },
        None => {},
    }
    let width: u32 = image.width();
    let height: u32 = image.height();
    let count: usize = image.len();
    let mut response: Vec<i64> = Vec::new();
    let mut seen: bool = false;
    let mut min_r: i64 = 0;
    let mut max_r: i64 = 0;
    let mut p: usize = 0;
    while p < count
        invariant
            p <= count,
            count == width * height,
            width == image@.width,
            height == image@.height,
            image@.wf(),
            response@.len() == p,
            forall|q: int| 0 <= q < p ==> response@[q] == response_of(image@, q),
            range_upto(image@, p as int) == (if seen {
                Some((min_r as int, max_r as int))
            } else {
                None
            }),
        decreases count - p,
    {
        proof {
            lemma_position_to_pixel(p as int, width as int, height as int);
        }
        let x: u32 = (p % (width as usize)) as u32;
        let y: u32 = (p / (width as usize)) as u32;
        if 1 <= x && x < width - 1 && 1 <= y && y < height - 1 {
            let m: MomentMatrix = moment_matrix(image, x, y);
            let r: i64 = harris_response(&m);
            response.push(r);
            if !seen {
                seen = true;
                min_r = r;
                max_r = r;
            } else {
                if r < min_r {
                    min_r = r;
                }
                if r > max_r {
                    max_r = r;
                }
            }
        } else {
            response.push(0);
        }
        p = p + 1;
    }
    let bounds: Option<(i64, i64)> = if seen {
        Some((min_r, max_r))
    } else {
        None
    };
    let ghost range: Option<(int, int)> = response_range(image@);
    let mut samples: Vec<u8> = Vec::new();
    let mut k: usize = 0;
    while k < count
        invariant
            k <= count,
            count == response@.len(),
            samples@.len() == k,
            range == range_of(bounds),
            forall|q: int| 0 <= q < k ==> samples@[q] == normalized_sample(response@[q] as int, range),
        decreases count - k,
    {
        let r_normalized: u8 = rescale(response[k], bounds);
        samples.push(r_normalized);
        k = k + 1;
    }
    let normalized: Grid = Grid::new(width, height, samples).unwrap();
    proof {
        assert forall|q: int| 0 <= q < count implies normalized@.samples[q] == normalized_field(
            image@,
        ).samples[q] by {
            lemma_position_to_pixel(q, width as int, height as int);
        }
        assert(normalized@.samples =~= normalized_field(image@).samples);
    }
    let flipped: Grid = invert(&normalized);
    let mut corners: Vec<u8> = Vec::new();
    let mut q: usize = 0;
    while q < count
        invariant
            q <= count,
            count == width * height,
            width == image@.width,
            height == image@.height,
            image@.wf(),
            flipped@ == inverted(normalized_field(image@)),
            corners@.len() == q,
            forall|i: int|
                0 <= i < q ==> corners@[i] == harris_at(
                    image@,
                    i % (width as int),
                    i / (width as int),
                ),
        decreases count - q,
    {
        proof {
            lemma_position_to_pixel(q as int, width as int, height as int);
        }
        let x: u32 = (q % (width as usize)) as u32;
        let y: u32 = (q / (width as usize)) as u32;
        if 1 <= x && x < width - 1 && 1 <= y && y < height - 1 {
            corners.push(flipped.sample(q));
        } else {
            corners.push(0);
        }
        q = q + 1;
    }
    let made: Grid = Grid::new(width, height, corners).unwrap();
    assert(made@.samples =~= harris_field(image@).samples);
    Ok(made)
}

/// The sample of the corner mask at `(x, y)`: 255 where the whole 3x3
/// window lies inside the grid and the smaller eigenvalue of its
/// second-moment matrix is greater than `num / den`, and 0 elsewhere.
pub open spec fn corner_mask_at(g: GridView, num: int, den: int, x: int, y: int) -> u8 {
    if g.interior(x, y) && least_eigenvalue_exceeds(moments(g, x, y), num, den) {
        255
    } else {
        0
    }
}

/// The Shi-Tomasi corner mask of a grid for the threshold `num / den`.
pub open spec fn corner_mask(g: GridView, num: int, den: int) -> GridView {
    grid_of(g.width, g.height, |x: int, y: int| corner_mask_at(g, num, den, x, y))
}

/// The Shi-Tomasi corner mask of `image`, or the reason why there is none:
/// 255 at every pixel whose 3x3 window lies inside the image and whose
/// second-moment matrix has its smaller eigenvalue above `threshold`, and 0
/// at every other pixel.
///
/// The threshold is an absolute value in the domain of the eigenvalues; the
/// mask is neither rescaled nor inverted. A grid without pixels is refused
/// as `EmptyInput`, and one under three pixels wide or high, which has no
/// pixel to score, as `InvalidParameter`.
pub fn shi_corner_detection(image: &Grid, threshold: Fraction) -> (found: Result<Grid, DetectError>)
    ensures
        match found {
            Ok(mask) => detector_fault(image@) is None && mask@ == corner_mask(
                image@,
                threshold.numer(),
                threshold.denom(),
            ),
            Err(e) => detector_fault(image@) == Some(e),
        },
{
    match check_detectable(image) {
        Some(e) => {
            return Err(e);
        },
        None => {},
    }
    let width: u32 = image.width();
    let height: u32 = image.height();
    let count: usize = image.len();
    let mut samples: Vec<u8> = Vec::new();
    let mut p: usize = 0;
    while p < count
        invariant
            p <= count,
            count == width * height,
            width == image@.width,
            height == image@.height,
            image@.wf(),
            samples@.len() == p,
            forall|q: int|
                0 <= q < p ==> samples@[q] == corner_mask_at(
                    image@,
                    threshold.numer(),
                    threshold.denom(),
                    q % (width as int),
                    q / (width as int),
                ),
        decreases count - p,
    {
        proof {
            lemma_position_to_pixel(p as int, width as int, height as int);
        }
        let x: u32 = (p % (width as usize)) as u32;
        let y: u32 = (p / (width as usize)) as u32;
        let mut value: u8 = 0;
        if 1 <= x && x < width - 1 && 1 <= y && y < height - 1 {
            let a: MomentMatrix = moment_matrix(image, x, y);
            if least_eigenvalue_above(&a, threshold) {
                value = 255;
            }
        }
        samples.push(value);
        p = p + 1;
    }
    let mask: Grid = Grid::new(width, height, samples).unwrap();
    assert(mask@.samples =~= corner_mask(image@, threshold.numer(), threshold.denom()).samples);
    Ok(mask)
}

/// The corner detector by the Harris response: `harris_corner_detection`
/// under the name of its kind.
pub fn detect_harris_corners(image: &Grid) -> (found: Result<Grid, DetectError>)
    ensures
        match found {
            Ok(corners) => detector_fault(image@) is None && corners@ == harris_field(image@),
            Err(e) => detector_fault(image@) == Some(e),
        },
{
    harris_corner_detection(image)
}

/// The corner detector by the smaller eigenvalue: `shi_corner_detection`
/// under the name of its kind.
pub fn detect_shi_tomasi_corners(image: &Grid, threshold: Fraction) -> (found: Result<
    Grid,
    DetectError,
>)
    ensures
        match found {
            Ok(mask) => detector_fault(image@) is None && mask@ == corner_mask(
                image@,
                threshold.numer(),
                threshold.denom(),
            ),
            Err(e) => detector_fault(image@) == Some(e),
        },
{
    shi_corner_detection(image, threshold)
}

/// `range_upto` holds the extremes: every evaluated score lies between the
/// two, each of the two is the score of some evaluated pixel, and there is
/// no range exactly where no pixel is evaluated.
pub proof fn lemma_range_holds_extremes(g: GridView, n: int)
    requires
        0 <= n,
    ensures
        match range_upto(g, n) {
            None => forall|q: int| 0 <= q < n ==> !#[trigger] evaluated(g, q),
            Some((lo, hi)) => {
                &&& lo <= hi
                &&& forall|q: int|
                    0 <= q < n && #[trigger] evaluated(g, q) ==> lo <= response_of(g, q) <= hi
                &&& exists|q: int| 0 <= q < n && #[trigger] evaluated(g, q) && response_of(g, q) == lo
                &&& exists|q: int| 0 <= q < n && #[trigger] evaluated(g, q) && response_of(g, q) == hi
            },
        },
    decreases n,
{
    if n > 0 {
        lemma_range_holds_extremes(g, n - 1);
        if evaluated(g, n - 1) {
            let r = response_of(g, n - 1);
            match range_upto(g, n - 1) {
                None => {
                    assert(evaluated(g, n - 1) && response_of(g, n - 1) == r);
                },
                Some((lo, hi)) => {
                    let below = choose|q: int|
                        0 <= q < n - 1 && #[trigger] evaluated(g, q) && response_of(g, q) == lo;
                    let above = choose|q: int|
                        0 <= q < n - 1 && #[trigger] evaluated(g, q) && response_of(g, q) == hi;
                    assert(evaluated(g, below) && evaluated(g, above) && evaluated(g, n - 1));
                },
            }
        }
    }
}

/// Both corner detectors leave the outer ring of pixels, as wide as the
/// window's radius of one pixel, at the default: there the Harris score, the
/// sample of the Harris corner image and the sample of the Shi-Tomasi mask
/// are all 0.
pub proof fn lemma_border_ring_is_default(g: GridView, num: int, den: int, x: int, y: int)
    requires
        g.wf(),
        g.contains(x, y),
        !g.interior(x, y),
    ensures
        response_at(g, x, y) == 0,
        harris_field(g).at(x, y) == 0,
        corner_mask(g, num, den).at(x, y) == 0,
{
    lemma_grid_of_at(g.width, g.height, |x: int, y: int| harris_at(g, x, y), x, y);
    lemma_grid_of_at(g.width, g.height, |x: int, y: int| corner_mask_at(g, num, den, x, y), x, y);
}

/// Where the scores differ, a pixel with the greatest score comes out as 0
/// in the Harris corner image, the darkest sample there is, and a pixel with
/// the least score as 255.
pub proof fn lemma_extreme_scores(g: GridView, x: int, y: int)
    requires
        g.wf(),
        g.interior(x, y),
        response_range(g) matches Some((lo, hi)) && lo < hi,
    ensures
        response_range(g) matches Some((lo, hi)) && (response_at(g, x, y) == hi ==> harris_field(
            g,
        ).at(x, y) == 0) && (response_at(g, x, y) == lo ==> harris_field(g).at(x, y) == 255),
{
    lemma_grid_of_at(g.width, g.height, |x: int, y: int| harris_at(g, x, y), x, y);
}

/// The sum of products over a part of a window stays within 65025, the
/// square of 255, for each pixel counted, and a sum of squares is not
/// negative.
pub proof fn lemma_window_sum_bounded(g: GridView, x: int, y: int, which: int, n: int)
    requires
        0 <= n,
    ensures
        -n * 65025 <= window_sum(g, x, y, which, n) <= n * 65025,
        which != 1 ==> 0 <= window_sum(g, x, y, which, n),
    decreases n,
{
    if n > 0 {
        lemma_window_sum_bounded(g, x, y, which, n - 1);
        let dx = difference_x(g, x + (n - 1) % 3 - 1, y + (n - 1) / 3 - 1);
        let dy = difference_y(g, x + (n - 1) % 3 - 1, y + (n - 1) / 3 - 1);
        assert(0 <= dx * dx <= 65025 && 0 <= dy * dy <= 65025 && -65025 <= dx * dy <= 65025)
            by (nonlinear_arith)
            requires
                -255 <= dx <= 255,
                -255 <= dy <= 255,
        ;
    }
}

/// No window has a smaller eigenvalue above a quarter of the moment limit:
/// with a threshold of at least that, the Shi-Tomasi mask of any grid is 0
/// everywhere.
pub proof fn lemma_no_corner_above_every_eigenvalue(g: GridView, num: int, den: int)
    requires
        g.wf(),
        den > 0,
        4 * num >= MOMENT_LIMIT * den,
    ensures
        corner_mask(g, num, den).uniform(0),
{
    let mask = corner_mask(g, num, den);
    assert forall|p: int| 0 <= p < mask.samples.len() implies mask.samples[p] == 0 by {
        let x = p % (g.width as int);
        let y = p / (g.width as int);
        lemma_window_sum_bounded(g, x, y, 0, 9);
        lemma_window_sum_bounded(g, x, y, 2, 9);
        let t = trace_of(moments(g, x, y));
        assert(den * t <= 8 * num) by (nonlinear_arith)
            requires
                0 <= t <= 1_170_450,
                den > 0,
                4 * num >= 585_225 * den,
        ;
    }
}

/// On a grid of one intensity every difference is 0, and so is every
/// product of differences.
pub proof fn lemma_flat_grid_has_no_differences(g: GridView, value: int, x: int, y: int, which: int)
    requires
        g.wf(),
        g.uniform(value),
        g.contains(x, y),
    ensures
        difference_x(g, x, y) == 0,
        difference_y(g, x, y) == 0,
        product_at(g, x, y, which) == 0,
{
    assert forall|a: int, b: int| g.contains(a, b) implies #[trigger] g.at(a, b) == value by {
        lemma_pixel_to_position(a, b, g.width as int, g.height as int);
    }
    let dx = difference_x(g, x, y);
    let dy = difference_y(g, x, y);
    assert(dx * dx == 0 && dx * dy == 0 && dy * dy == 0) by (nonlinear_arith)
        requires
            dx == 0,
            dy == 0,
    ;
}

/// A grid of one intensity has no corners: all its moment sums are 0, and
/// with a threshold that is not negative its Shi-Tomasi mask is 0 everywhere.
pub proof fn lemma_flat_grid_has_no_corners(g: GridView, value: int, num: int, den: int)
    requires
        g.wf(),
        g.uniform(value),
        num >= 0,
        den > 0,
    ensures
        forall|x: int, y: int|
            g.interior(x, y) ==> #[trigger] moments(g, x, y) == (MomentView { xx: 0, xy: 0, yy: 0 }),
        corner_mask(g, num, den).uniform(0),
{
    assert forall|x: int, y: int| g.interior(x, y) implies #[trigger] moments(g, x, y) == (
    MomentView { xx: 0, xy: 0, yy: 0 }) by {
        assert forall|t: int, which: int| 0 <= t < 9 implies #[trigger] product_at(
            g,
            x + t % 3 - 1,
            y + t / 3 - 1,
            which,
        ) == 0 by {
            lemma_flat_grid_has_no_differences(g, value, x + t % 3 - 1, y + t / 3 - 1, which);
        }
        reveal_with_fuel(window_sum, 10);
        assert(window_sum(g, x, y, 0, 9) == 0);
        assert(window_sum(g, x, y, 1, 9) == 0);
        assert(window_sum(g, x, y, 2, 9) == 0);
    }
    let mask = corner_mask(g, num, den);
    assert forall|p: int| 0 <= p < mask.samples.len() implies mask.samples[p] == 0 by {
        let x = p % (g.width as int);
        let y = p / (g.width as int);
        if g.interior(x, y) {
            assert(moments(g, x, y) == (MomentView { xx: 0, xy: 0, yy: 0 }));
            assert(den * 0 == 0) by (nonlinear_arith);
        }
    }
}

} // verus!
