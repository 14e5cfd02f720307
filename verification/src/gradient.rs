use crate::grid::grid_of;
use crate::grid::is_interior;
use crate::grid::lemma_position_to_pixel;
use crate::grid::Grid;
use crate::grid::GridView;
use vstd::prelude::*;

verus! {

/// `r` is the square root of `n` with the fraction dropped.
pub open spec fn is_floor_sqrt(n: int, r: int) -> bool {
    0 <= r && r * r <= n < (r + 1) * (r + 1)
}

/// The square root of `n` with the fraction dropped.
pub open spec fn floor_sqrt(n: int) -> int {
    choose|r: int| is_floor_sqrt(n, r)
}

/// No number has two floored square roots.
pub proof fn lemma_floor_sqrt_unique(n: int, r: int, s: int)
    requires
        is_floor_sqrt(n, r),
        is_floor_sqrt(n, s),
    ensures
        r == s,
{
    if r < s {
        assert((r + 1) * (r + 1) <= s * s) by (nonlinear_arith)
            requires
                0 <= r,
                r + 1 <= s,
        ;
    } else if s < r {
        assert((s + 1) * (s + 1) <= r * r) by (nonlinear_arith)
            requires
                0 <= s,
                s + 1 <= r,
        ;
    }
}

/// A number that passes for the floored square root of `n` is the one.
pub proof fn lemma_floor_sqrt_is(n: int, r: int)
    requires
        is_floor_sqrt(n, r),
    ensures
        floor_sqrt(n) == r,
{
    lemma_floor_sqrt_unique(n, r, floor_sqrt(n));
}

/// The square root of `n` with the fraction dropped.
pub fn isqrt(n: u128) -> (r: u64)
    ensures
        is_floor_sqrt(n as int, r as int),
        r == floor_sqrt(n as int),
{
    let mut lo: u128 = 0;
    let mut hi: u128 = 0x1_0000_0000_0000_0000;
    while hi - lo > 1
        invariant
            lo < hi <= 0x1_0000_0000_0000_0000,
            lo * lo <= n,
            n < hi * hi,
        decreases hi - lo,
    {
        let mid: u128 = lo + (hi - lo) / 2;
        assert(mid * mid <= u128::MAX) by (nonlinear_arith)
            requires
                0 <= mid <= 0xffff_ffff_ffff_ffff,
        ;
        if mid * mid <= n {
            lo = mid;
        } else {
            hi = mid;
        }
    }
    proof {
        lemma_floor_sqrt_is(n as int, lo as int);
    }
    lo as u64
}

/// The canonical direction, in degrees, for an angle in whole degrees:
/// 23 to 68 is the rising diagonal, 69 to 112 the vertical, 113 to 158 the
/// falling diagonal, and every other angle, the negative ones among them,
/// the horizontal.
pub open spec fn bucket_of(angle: int) -> int {
    if 23 <= angle <= 68 {
        45
    } else if 69 <= angle <= 112 {
        90
    } else if 113 <= angle <= 158 {
        135
    } else {
        0
    }
}

/// One of the four canonical directions.
pub open spec fn is_bucket(d: int) -> bool {
    d == 0 || d == 45 || d == 90 || d == 135
}

/// Every angle has exactly one canonical direction, whatever its sign or
/// size: `bucket_of` is a function of the angle alone, and its value is one
/// of the four.
pub proof fn lemma_bucket_total(angle: int)
    ensures
        is_bucket(bucket_of(angle)),
{
}

/// The canonical direction for an angle in whole degrees.
pub fn direction_bucket(angle: i32) -> (d: u8)
    ensures
        d == bucket_of(angle as int),
        is_bucket(d as int),
{
    if 23 <= angle && angle <= 68 {
        45
    } else if 69 <= angle && angle <= 112 {
        90
    } else if 113 <= angle && angle <= 158 {
        135
    } else {
        0
    }
}

/// The largest magnitude of an operator's coefficient: a sample times a
/// coefficient stays within 32 bits.
pub const COEFFICIENT_LIMIT: i32 = 8_421_504;

/// A derivative operator has at least three rows of at least three
/// coefficients, of which the first three of the first three rows are used
/// and lie within the coefficient limit.
pub open spec fn operator_wf(op: Seq<Seq<i32>>) -> bool {
    &&& op.len() >= 3
    &&& op[0].len() >= 3
    &&& op[1].len() >= 3
    &&& op[2].len() >= 3
    &&& forall|i: int, j: int|
        0 <= i < 3 && 0 <= j < 3 ==> -COEFFICIENT_LIMIT <= #[trigger] op[i][j] <= COEFFICIENT_LIMIT
}

/// A pair of operators: the first for the derivative along x, the second
/// for the derivative along y.
pub open spec fn operators_wf(ops: Seq<Seq<Seq<i32>>>) -> bool {
    ops.len() >= 2 && operator_wf(ops[0]) && operator_wf(ops[1])
}

/// The two Sobel operators, each written row by row as it lies over the
/// image: the first index of an operator is the offset along y, the second
/// the offset along x, each counted from -1. The first operator weighs the
/// column to the right against the column to the left, the second the row
/// below against the row above.
pub open spec fn sobel_operators() -> Seq<Seq<Seq<i32>>> {
    seq![
        seq![seq![-1i32, 0i32, 1i32], seq![-2i32, 0i32, 2i32], seq![-1i32, 0i32, 1i32]],
        seq![seq![-1i32, -2i32, -1i32], seq![0i32, 0i32, 0i32], seq![1i32, 2i32, 1i32]],
    ]
}

/// What cell `t` of the operator adds at pixel `(x, y)`: the cell in row
/// `t / 3` and column `t % 3` weighs the sample at the offset
/// `(t % 3 - 1, t / 3 - 1)`, so that a row of the operator lies along x.
pub open spec fn operator_tap(g: GridView, op: Seq<Seq<i32>>, x: int, y: int, t: int) -> int {
    g.at(x + t % 3 - 1, y + t / 3 - 1) * op[t / 3][t % 3]
}

/// The contributions of the first `n` cells of the operator at `(x, y)`.
pub open spec fn operator_taps(g: GridView, op: Seq<Seq<i32>>, x: int, y: int, n: int) -> int
    decreases n,
{
    if n <= 0 {
        0
    } else {
        operator_taps(g, op, x, y, n - 1) + operator_tap(g, op, x, y, n - 1)
    }
}

/// The operator applied at the interior pixel `(x, y)`: the sum over its
/// nine cells of sample times coefficient.
pub open spec fn operator_response(g: GridView, op: Seq<Seq<i32>>, x: int, y: int) -> int {
    operator_taps(g, op, x, y, 9)
}

/// The operator applied at the interior pixel `(x, y)`.
pub fn apply_operator(image: &Grid, op: &Vec<Vec<i32>>, x: u32, y: u32) -> (acc: i64)
    requires
        image@.interior(x as int, y as int),
        operator_wf(op.deep_view()),
    ensures
        acc == operator_response(image@, op.deep_view(), x as int, y as int),
        -9 * 0x7fff_ff80 <= acc <= 9 * 0x7fff_ff80,
{
    let width: u32 = image.width();
    let height: u32 = image.height();
    let mut acc: i64 = 0;
    let mut t: usize = 0;
    while t < 9
        invariant
            t <= 9,
            width == image@.width,
            height == image@.height,
            image@.interior(x as int, y as int),
            operator_wf(op.deep_view()),
            acc == operator_taps(image@, op.deep_view(), x as int, y as int, t as int),
            -t * 0x7fff_ff80 <= acc <= t * 0x7fff_ff80,
        decreases 9 - t,
    {
        let i: usize = t / 3;
        let j: usize = t % 3;
        assert(op.deep_view()[i as int].len() >= 3);
        assert(op.deep_view()[i as int][j as int] == op@[i as int]@[j as int]);
        let s: u8 = image.get(x - 1 + j as u32, y - 1 + i as u32);
        let c: i32 = op[i][j];
        assert(-0x7fff_ff80 <= (s as int) * (c as int) <= 0x7fff_ff80) by (nonlinear_arith)
            requires
                0 <= s <= 255,
                -8_421_504 <= c <= 8_421_504,
        ;
        acc = acc + (s as i64) * (c as i64);
        t = t + 1;
    }
    acc
}

/// The Sobel operators are a well-formed pair.
pub proof fn lemma_sobel_operators_wf()
    ensures
        operators_wf(sobel_operators()),
{
    let ops = sobel_operators();
    assert(ops.len() == 2);
    assert(ops[0].len() == 3 && ops[1].len() == 3);
    assert(ops[0][0].len() == 3 && ops[0][1].len() == 3 && ops[0][2].len() == 3);
    assert(ops[1][0].len() == 3 && ops[1][1].len() == 3 && ops[1][2].len() == 3);
    assert forall|i: int, j: int| 0 <= i < 3 && 0 <= j < 3 implies -COEFFICIENT_LIMIT
        <= #[trigger] ops[0][i][j] <= COEFFICIENT_LIMIT by {
        assert(-2 <= ops[0][i][j] <= 2);
    }
    assert forall|i: int, j: int| 0 <= i < 3 && 0 <= j < 3 implies -COEFFICIENT_LIMIT
        <= #[trigger] ops[1][i][j] <= COEFFICIENT_LIMIT by {
        assert(-2 <= ops[1][i][j] <= 2);
    }
}

/// The two Sobel operators, as `sobel_operator` takes them.
pub fn sobel_kernels() -> (ops: Vec<Vec<Vec<i32>>>)
    ensures
        ops.deep_view() == sobel_operators(),
        operators_wf(ops.deep_view()),
{
    let x0: Vec<i32> = vec![-1, 0, 1];
    let x1: Vec<i32> = vec![-2, 0, 2];
    let x2: Vec<i32> = vec![-1, 0, 1];
    let y0: Vec<i32> = vec![-1, -2, -1];
    let y1: Vec<i32> = vec![0, 0, 0];
    let y2: Vec<i32> = vec![1, 2, 1];
    let sobel_x: Vec<Vec<i32>> = vec![x0, x1, x2];
    let sobel_y: Vec<Vec<i32>> = vec![y0, y1, y2];
    let ops: Vec<Vec<Vec<i32>>> = vec![sobel_x, sobel_y];
    proof {
        let want = sobel_operators();
        let have = ops.deep_view();
        assert(have.len() == 2);
        assert(have[0] =~~= want[0]);
        assert(have[1] =~~= want[1]);
        assert(have =~~= want);
        lemma_sobel_operators_wf();
    }
    ops
}

/// The length of the gradient `(gx, gy)`, with the fraction dropped.
pub open spec fn magnitude(gx: int, gy: int) -> int {
    floor_sqrt(gx * gx + gy * gy)
}

/// The length of the gradient `(gx, gy)`, with the fraction dropped.
pub fn gradient_magnitude(gx: i64, gy: i64) -> (m: u64)
    ensures
        m == magnitude(gx as int, gy as int),
        is_floor_sqrt(gx * gx + gy * gy, m as int),
{
    let ax: u128 = if gx < 0 {
        (-(gx as i128)) as u128
    } else {
        gx as u128
    };
    let ay: u128 = if gy < 0 {
        (-(gy as i128)) as u128
    } else {
        gy as u128
    };
    assert(ax * ax == gx * gx && ax * ax <= 0x4000_0000_0000_0000_0000_0000_0000_0000)
        by (nonlinear_arith)
        requires
            ax == gx || ax == -gx,
            0 <= ax <= 0x8000_0000_0000_0000,
    ;
    assert(ay * ay == gy * gy && ay * ay <= 0x4000_0000_0000_0000_0000_0000_0000_0000)
        by (nonlinear_arith)
        requires
            ay == gy || ay == -gy,
            0 <= ay <= 0x8000_0000_0000_0000,
    ;
    isqrt(ax * ax + ay * ay)
}

/// The response of the first operator at `(x, y)`: the derivative along x.
pub open spec fn gradient_x(g: GridView, ops: Seq<Seq<Seq<i32>>>, x: int, y: int) -> int {
    operator_response(g, ops[0], x, y)
}

/// The response of the second operator at `(x, y)`: the derivative along y.
pub open spec fn gradient_y(g: GridView, ops: Seq<Seq<Seq<i32>>>, x: int, y: int) -> int {
    operator_response(g, ops[1], x, y)
}

/// The gradient at the pixel stored at position `p`: both responses at an
/// interior pixel, and `(0, 0)` on the outer ring.
pub open spec fn gradient_at(g: GridView, ops: Seq<Seq<Seq<i32>>>, p: int) -> (int, int) {
    if g.interior(g.col(p), g.row(p)) {
        (gradient_x(g, ops, g.col(p), g.row(p)), gradient_y(g, ops, g.col(p), g.row(p)))
    } else {
        (0, 0)
    }
}

/// A length as a sample: itself where it is below 255, and 255 from there
/// on.
pub open spec fn saturated(length: int) -> u8 {
    if length < 255 {
        length as u8
    } else {
        255
    }
}

/// The sample of the magnitude field at `(x, y)`: the length of the gradient
/// at an interior pixel, held to 255, and 0 on the outer ring.
pub open spec fn magnitude_at(g: GridView, ops: Seq<Seq<Seq<i32>>>, x: int, y: int) -> u8 {
    if g.interior(x, y) {
        saturated(magnitude(gradient_x(g, ops, x, y), gradient_y(g, ops, x, y)))
    } else {
        0
    }
}

/// The magnitude field of a grid under a pair of operators.
pub open spec fn magnitude_field(g: GridView, ops: Seq<Seq<Seq<i32>>>) -> GridView {
    grid_of(g.width, g.height, |x: int, y: int| magnitude_at(g, ops, x, y))
}

/// The sample of the direction field at `(x, y)`: the canonical direction of
/// the pixel's angle at an interior pixel, and 0 on the outer ring.
pub open spec fn direction_at(width: nat, height: nat, angles: Seq<i32>, x: int, y: int) -> u8 {
    if is_interior(width, height, x, y) {
        bucket_of(angles[y * width + x] as int) as u8
    } else {
        0
    }
}

/// The direction field for the angles of a grid's gradients, one angle in
/// whole degrees for each pixel in row-major order.
pub open spec fn direction_field(width: nat, height: nat, angles: Seq<i32>) -> GridView {
    grid_of(width, height, |x: int, y: int| direction_at(width, height, angles, x, y))
}

/// The gradient of `image` at every pixel, in row-major order: the pair of
/// responses of the two operators at an interior pixel, `(0, 0)` on the
/// outer ring.
///
/// The angle of a gradient `(gx, gy)`, which `sobel_operator` asks for, is
/// that of the direction from the origin to the point `(gx, gy)`, in degrees
/// from -180 to 180 and rounded to a whole number.
pub fn sobel_gradients(image: &Grid, operators: &Vec<Vec<Vec<i32>>>) -> (gradients: Vec<(i64, i64)>)
    requires
        operators_wf(operators.deep_view()),
    ensures
        gradients@.len() == image@.samples.len(),
        forall|p: int|
            0 <= p < gradients@.len() ==> (gradients@[p].0 as int, gradients@[p].1 as int)
                == gradient_at(image@, operators.deep_view(), p),
{
    let width: u32 = image.width();
    let height: u32 = image.height();
    let count: usize = image.len();
    let mut gradients: Vec<(i64, i64)> = Vec::new();
    let mut p: usize = 0;
    while p < count
        invariant
            p <= count,
            count == width * height,
            width == image@.width,
            height == image@.height,
            image@.wf(),
            operators_wf(operators.deep_view()),
            gradients@.len() == p,
            forall|q: int|
                0 <= q < p ==> (gradients@[q].0 as int, gradients@[q].1 as int) == gradient_at(
                    image@,
                    operators.deep_view(),
                    q,
                ),
        decreases count - p,
    {
        proof {
            lemma_position_to_pixel(p as int, width as int, height as int);
        }
        let x: u32 = (p % (width as usize)) as u32;
        let y: u32 = (p / (width as usize)) as u32;
        if 1 <= x && x < width - 1 && 1 <= y && y < height - 1 {
            assert(operators.deep_view()[0] == operators@[0].deep_view());
            assert(operators.deep_view()[1] == operators@[1].deep_view());
            let gx: i64 = apply_operator(image, &operators[0], x, y);
            let gy: i64 = apply_operator(image, &operators[1], x, y);
            gradients.push((gx, gy));
        } else {
            gradients.push((0, 0));
        }
        p = p + 1;
    }
    gradients
}

/// The magnitude field of `image` under a pair of 3x3 operators: at an
/// interior pixel the length of the gradient, held to 255, and 0 on the
/// outer ring of pixels.
pub fn gradient_magnitudes(image: &Grid, operators: &Vec<Vec<Vec<i32>>>) -> (field: Grid)
    requires
        operators_wf(operators.deep_view()),
    ensures
        field@ == magnitude_field(image@, operators.deep_view()),
{
    let width: u32 = image.width();
    let height: u32 = image.height();
    let count: usize = image.len();
    let mut magnitudes: Vec<u8> = Vec::new();
    let mut p: usize = 0;
    while p < count
        invariant
            p <= count,
            count == width * height,
            width == image@.width,
            height == image@.height,
            image@.wf(),
            operators_wf(operators.deep_view()),
            magnitudes@.len() == p,
            forall|q: int|
                0 <= q < p ==> magnitudes@[q] == magnitude_at(
                    image@,
                    operators.deep_view(),
                    q % (width as int),
                    q / (width as int),
                ),
        decreases count - p,
    {
        proof {
            lemma_position_to_pixel(p as int, width as int, height as int);
        }
        let x: u32 = (p % (width as usize)) as u32;
        let y: u32 = (p / (width as usize)) as u32;
        if 1 <= x && x < width - 1 && 1 <= y && y < height - 1 {
            assert(operators.deep_view()[0] == operators@[0].deep_view());
            assert(operators.deep_view()[1] == operators@[1].deep_view());
            let gx: i64 = apply_operator(image, &operators[0], x, y);
            let gy: i64 = apply_operator(image, &operators[1], x, y);
            let g: u64 = gradient_magnitude(gx, gy);
            magnitudes.push(if g < 255 {
                g as u8
            } else {
                255
            });
        } else {
            magnitudes.push(0);
        }
        p = p + 1;
    }
    let field: Grid = Grid::new(width, height, magnitudes).unwrap();
    assert(field@.samples =~= magnitude_field(image@, operators.deep_view()).samples);
    field
}

/// The direction field for the angles of a grid's gradients: at an interior
/// pixel the canonical direction, in degrees, of the angle given for it, and
/// 0 on the outer ring of pixels. `angles` holds one angle in whole degrees
/// for each pixel in row-major order.
pub fn gradient_directions(width: u32, height: u32, angles: &Vec<i32>) -> (field: Grid)
    requires
        angles@.len() == width * height,
    ensures
        field@ == direction_field(width as nat, height as nat, angles@),
{
    let count: usize = angles.len();
    let mut directions: Vec<u8> = Vec::new();
    let mut p: usize = 0;
    while p < count
        invariant
            p <= count,
            count == width * height,
            count == angles@.len(),
            directions@.len() == p,
            forall|q: int|
                0 <= q < p ==> directions@[q] == direction_at(
                    width as nat,
                    height as nat,
                    angles@,
                    q % (width as int),
                    q / (width as int),
                ),
        decreases count - p,
    {
        proof {
            lemma_position_to_pixel(p as int, width as int, height as int);
        }
        let x: u32 = (p % (width as usize)) as u32;
        let y: u32 = (p / (width as usize)) as u32;
        if 1 <= x && x < width - 1 && 1 <= y && y < height - 1 {
            directions.push(direction_bucket(angles[p]));
        } else {
            directions.push(0);
        }
        p = p + 1;
    }
    let field: Grid = Grid::new(width, height, directions).unwrap();
    assert(field@.samples =~= direction_field(width as nat, height as nat, angles@).samples);
    field
}

/// Magnitude and direction of the gradient of `image` under a pair of 3x3
/// operators, as two grids of the dimensions of `image`.
///
/// At an interior pixel the magnitude grid holds the length of the
/// gradient, held to 255, and the direction grid the canonical direction,
/// in degrees, of the angle given for that pixel. Both are 0 on the outer
/// ring of pixels. `angles` holds one angle in whole degrees for each pixel
/// in row-major order: that of the gradient which `sobel_gradients` returns
/// for it.
pub fn sobel_operator(image: &Grid, operators: &Vec<Vec<Vec<i32>>>, angles: &Vec<i32>) -> (fields: (
    Grid,
    Grid,
))
    requires
        operators_wf(operators.deep_view()),
        angles@.len() == image@.samples.len(),
    ensures
        fields.0@ == magnitude_field(image@, operators.deep_view()),
        fields.1@ == direction_field(image@.width, image@.height, angles@),
{
    let magnitudes: Grid = gradient_magnitudes(image, operators);
    let directions: Grid = gradient_directions(image.width(), image.height(), angles);
    (magnitudes, directions)
}

} // verus!
