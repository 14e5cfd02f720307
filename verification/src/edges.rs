use crate::error::check_detectable;
use crate::error::detector_fault;
use crate::error::DetectError;
use crate::fraction::Fraction;
use crate::gradient::direction_field;
use crate::gradient::gradient_directions;
use crate::gradient::gradient_magnitudes;
use crate::gradient::magnitude_field;
use crate::gradient::sobel_kernels;
use crate::gradient::sobel_operators;
use crate::gradient::gradient_x;
use crate::gradient::gradient_y;
use crate::gradient::lemma_floor_sqrt_is;
use crate::gradient::magnitude_at;
use crate::gradient::operator_response;
use crate::gradient::operator_tap;
use crate::gradient::operator_taps;
use crate::grid::grid_of;
use crate::grid::lemma_grid_of_at;
use crate::grid::lemma_pixel_to_position;
use crate::grid::lemma_position_to_pixel;
use crate::grid::Grid;
use crate::grid::GridView;
use crate::pixel_ops::brighten;
use crate::pixel_ops::brightened;
use crate::pixel_ops::brightened_sample;
use vstd::prelude::*;

verus! {

/// A magnitude that is at least both of its neighbours' stays; any other
/// becomes zero.
pub open spec fn keep_if_peak(m: int, first: int, second: int) -> u8 {
    if m >= first && m >= second {
        m as u8
    } else {
        0
    }
}

/// The suppressed magnitude at `(x, y)`. At an interior pixel the magnitude
/// is held against its two neighbours along the pixel's direction; a pixel
/// on the outer ring, or one whose direction is none of the four, gets 0.
pub open spec fn suppressed_at(mag: GridView, dir: GridView, x: int, y: int) -> u8 {
    let m = mag.at(x, y);
    let d = dir.at(x, y);
    if !mag.interior(x, y) {
        0
    } else if d == 0 {
        keep_if_peak(m, mag.at(x + 1, y), mag.at(x - 1, y))
    } else if d == 45 {
        keep_if_peak(m, mag.at(x + 1, y - 1), mag.at(x - 1, y + 1))
    } else if d == 90 {
        keep_if_peak(m, mag.at(x, y + 1), mag.at(x, y - 1))
    } else if d == 135 {
        keep_if_peak(m, mag.at(x - 1, y - 1), mag.at(x + 1, y + 1))
    } else {
        0
    }
}

/// The magnitude field thinned by non-maximum suppression along the
/// directions of the direction field.
pub open spec fn suppressed(mag: GridView, dir: GridView) -> GridView {
    grid_of(mag.width, mag.height, |x: int, y: int| suppressed_at(mag, dir, x, y))
}

/// Thins a magnitude field: an interior pixel keeps its magnitude only where
/// it is at least that of both neighbours along its direction, and becomes 0
/// otherwise.
///
/// The neighbours are left and right for direction 0, upper right and lower
/// left for 45, below and above for 90, upper left and lower right for 135.
/// The outer ring of pixels is not examined and comes out as 0, and so does a
/// pixel whose direction is none of the four.
pub fn non_maximum_suppression(grad_mag: &Grid, grad_dir: &Grid) -> (thinned: Grid)
    requires
        grad_mag@.same_shape(grad_dir@),
    ensures
        thinned@ == suppressed(grad_mag@, grad_dir@),
{
    let width: u32 = grad_mag.width();
    let height: u32 = grad_mag.height();
    let count: usize = grad_mag.len();
    let other: usize = grad_dir.len();
    let mut samples: Vec<u8> = Vec::new();
    let mut p: usize = 0;
    while p < count
        invariant
            p <= count,
            count == width * height,
            width == grad_mag@.width,
            height == grad_mag@.height,
            grad_mag@.wf(),
            grad_dir@.wf(),
            grad_mag@.same_shape(grad_dir@),
            samples@.len() == p,
            forall|q: int|
                0 <= q < p ==> samples@[q] == suppressed_at(
                    grad_mag@,
                    grad_dir@,
                    q % (width as int),
                    q / (width as int),
                ),
        decreases count - p,
    {
        proof {
            lemma_position_to_pixel(p as int, width as int, height as int);
        }
        let x: u32 = (p % (width as usize)) as u32;
        let y: u32 = (p / (width as usize)) as u32;
        let mut value: u8 = 0;
        if 1 <= x && x < width - 1 && 1 <= y && y < height - 1 {
            let mag: u8 = grad_mag.get(x, y);
            let direction: u8 = grad_dir.get(x, y);
            if direction == 0 {
                let first: u8 = grad_mag.get(x + 1, y);
                let second: u8 = grad_mag.get(x - 1, y);
                if mag >= first && mag >= second {
                    value = mag;
                }
            } else if direction == 45 {
                let first: u8 = grad_mag.get(x + 1, y - 1);
                let second: u8 = grad_mag.get(x - 1, y + 1);
                if mag >= first && mag >= second {
                    value = mag;
                }
            } else if direction == 90 {
                let first: u8 = grad_mag.get(x, y + 1);
                let second: u8 = grad_mag.get(x, y - 1);
                if mag >= first && mag >= second {
                    value = mag;
                }
            } else if direction == 135 {
                let first: u8 = grad_mag.get(x - 1, y - 1);
                let second: u8 = grad_mag.get(x + 1, y + 1);
                if mag >= first && mag >= second {
                    value = mag;
                }
            }
        }
        samples.push(value);
        p = p + 1;
    }
    let thinned: Grid = Grid::new(width, height, samples).unwrap();
    assert(thinned@.samples =~= suppressed(grad_mag@, grad_dir@).samples);
    thinned
}

/// The value lies strictly below the fraction `num / den` of 255.
pub open spec fn below_threshold(value: int, num: int, den: int) -> bool {
    value * den < 255 * num
}

/// A sample below the threshold becomes 0; any other stays as it is.
pub open spec fn classified_sample(value: u8, num: int, den: int) -> u8 {
    if below_threshold(value as int, num, den) {
        0
    } else {
        value
    }
}

/// The grid with every sample classified against the threshold `num / den`.
pub open spec fn classified(g: GridView, num: int, den: int) -> GridView {
    GridView {
        width: g.width,
        height: g.height,
        samples: Seq::new(g.samples.len(), |i: int| classified_sample(g.samples[i], num, den)),
    }
}

/// No sample is below the threshold `num / den` of 255 unless it is 0.
pub open spec fn nothing_below(g: GridView, num: int, den: int) -> bool {
    forall|i: int|
        0 <= i < g.samples.len() ==> g.samples[i] == 0 || !below_threshold(
            #[trigger] g.samples[i] as int,
            num,
            den,
        )
}

/// Classifies with a single threshold: a sample strictly below `threshold`
/// times 255 becomes 0, and every other sample is kept as it is.
pub fn double_threshold(image: &Grid, threshold: Fraction) -> (kept: Grid)
    ensures
        kept@ == classified(image@, threshold.numer(), threshold.denom()),
        nothing_below(kept@, threshold.numer(), threshold.denom()),
{
    let width: u32 = image.width();
    let height: u32 = image.height();
    let count: usize = image.len();
    let num: i64 = threshold.num() as i64;
    let den: i64 = threshold.den() as i64;
    let mut samples: Vec<u8> = Vec::new();
    let mut p: usize = 0;
    while p < count
        invariant
            p <= count,
            count == image@.samples.len(),
            num == threshold.numer(),
            den == threshold.denom(),
            -0x8000_0000 <= num < 0x8000_0000,
            0 < den < 0x1_0000_0000,
            samples@.len() == p,
            forall|q: int|
                0 <= q < p ==> samples@[q] == classified_sample(image@.samples[q], num as int, den as int),
        decreases count - p,
    {
        let value: u8 = image.sample(p);
        assert(0 <= (value as int) * (den as int) <= 255 * 0x1_0000_0000) by (nonlinear_arith)
            requires
                0 <= value <= 255,
                0 < den < 0x1_0000_0000,
        ;
        if (value as i64) * den < 255 * num {
            samples.push(0);
        } else {
            samples.push(value);
        }
        p = p + 1;
    }
    let kept: Grid = Grid::new(width, height, samples).unwrap();
    assert(kept@.samples =~= classified(image@, num as int, den as int).samples);
    kept
}

/// Why the gradient detector turns its input down, if it does: for the
/// reasons of any detector, or because the strength of the smoothing is not
/// positive.
pub open spec fn gradient_fault(g: GridView, sigma_num: int) -> Option<DetectError> {
    if detector_fault(g) is Some {
        detector_fault(g)
    } else if sigma_num <= 0 {
        Some(DetectError::InvalidParameter)
    } else {
        None
    }
}

/// Why the edge detector turns its input down, if it does: for the reasons
/// of the gradient detector, or because there is not one angle for each
/// pixel.
pub open spec fn edge_fault(g: GridView, sigma_num: int, angles: Seq<i32>) -> Option<DetectError> {
    if gradient_fault(g, sigma_num) is Some {
        gradient_fault(g, sigma_num)
    } else if angles.len() != g.samples.len() {
        Some(DetectError::InvalidParameter)
    } else {
        None
    }
}

/// The edge field of a grid: its Sobel magnitudes, thinned along the
/// directions of the given angles and classified against `num / den`.
pub open spec fn edge_field(g: GridView, angles: Seq<i32>, num: int, den: int) -> GridView {
    classified(
        suppressed(
            magnitude_field(g, sobel_operators()),
            direction_field(g.width, g.height, angles),
        ),
        num,
        den,
    )
}

/// The Sobel gradient magnitude of an image smoothed with strength `sigma`,
/// with neither suppression nor threshold.
///
/// `image` is the image after smoothing, which is the caller's to apply, by
/// `convolve` or by any other blur, and `sigma` the strength that it was
/// smoothed with. A grid without pixels is refused as `EmptyInput`; one
/// under three pixels wide or high, or a strength that is not positive, as
/// `InvalidParameter`.
pub fn detect_gradient(image: &Grid, sigma: Fraction) -> (found: Result<Grid, DetectError>)
    ensures
        match found {
            Ok(field) => gradient_fault(image@, sigma.numer()) is None && field@
                == magnitude_field(image@, sobel_operators()),
            Err(e) => gradient_fault(image@, sigma.numer()) == Some(e),
        },
{
    match check_detectable(image) {
        Some(e) => Err(e),
        None => {
            if sigma.num() <= 0 {
                return Err(DetectError::InvalidParameter);
            }
            let operators: Vec<Vec<Vec<i32>>> = sobel_kernels();
            Ok(gradient_magnitudes(image, &operators))
        },
    }
}

/// The edges of an image smoothed with strength `sigma`: Sobel magnitudes,
/// thinned by non-maximum suppression and classified with a single
/// threshold.
///
/// `image` is the image after smoothing, which is the caller's to apply, and
/// `sigma` the strength that it was smoothed with. `angles` holds, for each
/// pixel in row-major order, the angle in whole degrees of the gradient that
/// `sobel_gradients` returns for it under the Sobel operators. Any
/// brightening of the result is the caller's too.
///
/// A grid without pixels is refused as `EmptyInput`; one under three pixels
/// wide or high, a strength that is not positive, or a number of angles
/// other than the number of pixels, as `InvalidParameter`.
pub fn detect_edges(image: &Grid, sigma: Fraction, angles: &Vec<i32>, threshold: Fraction) -> (found:
    Result<Grid, DetectError>)
    ensures
        match found {
            Ok(edges) => {
                &&& edge_fault(image@, sigma.numer(), angles@) is None
                &&& edges@ == edge_field(image@, angles@, threshold.numer(), threshold.denom())
                &&& nothing_below(edges@, threshold.numer(), threshold.denom())
            },
            Err(e) => edge_fault(image@, sigma.numer(), angles@) == Some(e),
        },
{
    match check_detectable(image) {
        Some(e) => Err(e),
        None => {
            if sigma.num() <= 0 || angles.len() != image.len() {
                return Err(DetectError::InvalidParameter);
            }
            let operators: Vec<Vec<Vec<i32>>> = sobel_kernels();
            let magnitudes: Grid = gradient_magnitudes(image, &operators);
            let directions: Grid = gradient_directions(image.width(), image.height(), angles);
            let thinned: Grid = non_maximum_suppression(&magnitudes, &directions);
            Ok(double_threshold(&thinned, threshold))
        },
    }
}

/// A sample of an edge field made brighter for display: 0 stays 0, and any
/// other sample is raised by `value` and held to the range 1 to 255, so that
/// it does not become 0.
pub open spec fn displayed_sample(sample: u8, value: int) -> u8 {
    if sample == 0 {
        0
    } else if brightened_sample(sample, value) == 0 {
        1
    } else {
        brightened_sample(sample, value)
    }
}

/// The edge field made brighter for display.
pub open spec fn displayed(g: GridView, value: int) -> GridView {
    GridView {
        width: g.width,
        height: g.height,
        samples: Seq::new(g.samples.len(), |i: int| displayed_sample(g.samples[i], value)),
    }
}

/// The pixels that are 0 in one grid are those that are 0 in the other.
pub open spec fn same_zeros(a: GridView, b: GridView) -> bool {
    &&& a.samples.len() == b.samples.len()
    &&& forall|i: int| 0 <= i < a.samples.len() ==> (a.samples[i] == 0 <==> b.samples[i] == 0)
}

/// Makes an edge field brighter for display, or darker where `value` is
/// negative, without touching the classification: a pixel that is 0 stays
/// 0, and a pixel that is not stays above 0.
pub fn brighten_edges(edges: &Grid, value: i32) -> (shown: Grid)
    ensures
        shown@ == displayed(edges@, value as int),
        same_zeros(shown@, edges@),
{
    let width: u32 = edges.width();
    let height: u32 = edges.height();
    let count: usize = edges.len();
    let raised: Grid = brighten(edges, value);
    let mut samples: Vec<u8> = Vec::new();
    let mut p: usize = 0;
    while p < count
        invariant
            p <= count,
            count == edges@.samples.len(),
            raised@ == brightened(edges@, value as int),
            samples@.len() == p,
            forall|q: int|
                0 <= q < p ==> samples@[q] == displayed_sample(edges@.samples[q], value as int),
        decreases count - p,
    {
        let before: u8 = edges.sample(p);
        let after: u8 = raised.sample(p);
        if before == 0 {
            samples.push(0);
        } else if after == 0 {
            samples.push(1);
        } else {
            samples.push(after);
        }
        p = p + 1;
    }
    let shown: Grid = Grid::new(width, height, samples).unwrap();
    assert(shown@.samples =~= displayed(edges@, value as int).samples);
    shown
}

/// A pixel of the thinned field holds what `suppressed_at` says, which is
/// never more than the magnitude it came from.
pub proof fn lemma_suppressed_sample(mag: GridView, dir: GridView, x: int, y: int)
    requires
        mag.wf(),
        mag.contains(x, y),
    ensures
        suppressed(mag, dir).wf(),
        suppressed(mag, dir).at(x, y) == suppressed_at(mag, dir, x, y),
        0 <= suppressed(mag, dir).at(x, y) <= mag.at(x, y),
{
    lemma_grid_of_at(mag.width, mag.height, |x: int, y: int| suppressed_at(mag, dir, x, y), x, y);
}

/// Non-maximum suppression is idempotent: on a field that it has thinned,
/// with the same directions, it changes no pixel.
pub proof fn lemma_suppression_idempotent(mag: GridView, dir: GridView)
    requires
        mag.wf(),
        dir.wf(),
        mag.same_shape(dir),
    ensures
        suppressed(suppressed(mag, dir), dir) == suppressed(mag, dir),
{
    let once = suppressed(mag, dir);
    let twice = suppressed(once, dir);
    let w = mag.width as int;
    let h = mag.height as int;
    assert forall|p: int| 0 <= p < once.samples.len() implies twice.samples[p]
        == once.samples[p] by {
        lemma_position_to_pixel(p, w, h);
        let x = p % w;
        let y = p / w;
        lemma_suppressed_sample(mag, dir, x, y);
        assert(once.samples[p] == suppressed_at(mag, dir, x, y));
        assert(twice.samples[p] == suppressed_at(once, dir, x, y));
        if mag.interior(x, y) {
            lemma_suppressed_sample(mag, dir, x + 1, y);
            lemma_suppressed_sample(mag, dir, x - 1, y);
            lemma_suppressed_sample(mag, dir, x, y + 1);
            lemma_suppressed_sample(mag, dir, x, y - 1);
            lemma_suppressed_sample(mag, dir, x + 1, y - 1);
            lemma_suppressed_sample(mag, dir, x - 1, y + 1);
            lemma_suppressed_sample(mag, dir, x - 1, y - 1);
            lemma_suppressed_sample(mag, dir, x + 1, y + 1);
        }
    }
    assert(twice.samples =~= once.samples);
}

/// After classification no sample is below the threshold unless it is 0.
pub proof fn lemma_classified_nothing_below(g: GridView, num: int, den: int)
    ensures
        nothing_below(classified(g, num, den), num, den),
{
}

/// The sum of the nine coefficients of an operator.
pub open spec fn coefficient_sum(op: Seq<Seq<i32>>) -> int {
    op[0][0] + op[0][1] + op[0][2] + op[1][0] + op[1][1] + op[1][2] + op[2][0] + op[2][1]
        + op[2][2]
}

/// On a grid of one intensity an operator responds with that intensity
/// times the sum of its coefficients.
pub proof fn lemma_uniform_response(g: GridView, op: Seq<Seq<i32>>, value: int, x: int, y: int)
    requires
        g.wf(),
        g.uniform(value),
        g.interior(x, y),
    ensures
        operator_response(g, op, x, y) == value * coefficient_sum(op),
{
    let w = g.width as int;
    let h = g.height as int;
    lemma_pixel_to_position(x - 1, y - 1, w, h);
    lemma_pixel_to_position(x - 1, y, w, h);
    lemma_pixel_to_position(x - 1, y + 1, w, h);
    lemma_pixel_to_position(x, y - 1, w, h);
    lemma_pixel_to_position(x, y, w, h);
    lemma_pixel_to_position(x, y + 1, w, h);
    lemma_pixel_to_position(x + 1, y - 1, w, h);
    lemma_pixel_to_position(x + 1, y, w, h);
    lemma_pixel_to_position(x + 1, y + 1, w, h);
    let c0 = op[0][0] as int;
    let c1 = op[0][1] as int;
    let c2 = op[0][2] as int;
    let c3 = op[1][0] as int;
    let c4 = op[1][1] as int;
    let c5 = op[1][2] as int;
    let c6 = op[2][0] as int;
    let c7 = op[2][1] as int;
    let c8 = op[2][2] as int;
    assert(operator_tap(g, op, x, y, 0) == value * c0);
    assert(operator_tap(g, op, x, y, 1) == value * c1);
    assert(operator_tap(g, op, x, y, 2) == value * c2);
    assert(operator_tap(g, op, x, y, 3) == value * c3);
    assert(operator_tap(g, op, x, y, 4) == value * c4);
    assert(operator_tap(g, op, x, y, 5) == value * c5);
    assert(operator_tap(g, op, x, y, 6) == value * c6);
    assert(operator_tap(g, op, x, y, 7) == value * c7);
    assert(operator_tap(g, op, x, y, 8) == value * c8);
    reveal_with_fuel(operator_taps, 10);
    assert(operator_response(g, op, x, y) == value * c0 + value * c1 + value * c2 + value * c3
        + value * c4 + value * c5 + value * c6 + value * c7 + value * c8);
    assert(value * c0 + value * c1 + value * c2 + value * c3 + value * c4 + value * c5 + value * c6
        + value * c7 + value * c8 == value * (c0 + c1 + c2 + c3 + c4 + c5 + c6 + c7 + c8))
        by (nonlinear_arith);
}

/// Under the Sobel operators a grid of one intensity has no gradient: both
/// responses are 0 at every interior pixel.
pub proof fn lemma_uniform_grid_has_no_gradient(g: GridView, value: int, x: int, y: int)
    requires
        g.wf(),
        g.uniform(value),
        g.interior(x, y),
    ensures
        gradient_x(g, sobel_operators(), x, y) == 0,
        gradient_y(g, sobel_operators(), x, y) == 0,
        magnitude_at(g, sobel_operators(), x, y) == 0,
{
    let ops = sobel_operators();
    lemma_uniform_response(g, ops[0], value, x, y);
    lemma_uniform_response(g, ops[1], value, x, y);
    assert(coefficient_sum(ops[0]) == 0);
    assert(coefficient_sum(ops[1]) == 0);
    assert(value * 0 == 0) by (nonlinear_arith);
    lemma_floor_sqrt_is(0, 0);
}

/// A grid of one intensity has no edges: its edge field is 0 everywhere,
/// whatever the angles and the threshold.
pub proof fn lemma_uniform_grid_has_no_edges(
    g: GridView,
    value: int,
    angles: Seq<i32>,
    num: int,
    den: int,
)
    requires
        g.wf(),
        g.uniform(value),
    ensures
        edge_field(g, angles, num, den).uniform(0),
{
    let w = g.width as int;
    let h = g.height as int;
    let mag = magnitude_field(g, sobel_operators());
    let dir = direction_field(g.width, g.height, angles);
    let thin = suppressed(mag, dir);
    assert forall|x: int, y: int| g.contains(x, y) implies mag.at(x, y) == 0 by {
        lemma_grid_of_at(
            g.width,
            g.height,
            |x: int, y: int| magnitude_at(g, sobel_operators(), x, y),
            x,
            y,
        );
        if g.interior(x, y) {
            lemma_uniform_grid_has_no_gradient(g, value, x, y);
        }
    }
    assert forall|p: int| 0 <= p < thin.samples.len() implies thin.samples[p] == 0 by {
        lemma_position_to_pixel(p, w, h);
        assert(mag.at(p % w, p / w) == 0);
    }
}

} // verus!
