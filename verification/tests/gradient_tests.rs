use feature_detect::gradient::apply_operator;
use feature_detect::gradient::direction_bucket;
use feature_detect::gradient::gradient_directions;
use feature_detect::gradient::gradient_magnitude;
use feature_detect::gradient::gradient_magnitudes;
use feature_detect::gradient::isqrt;
use feature_detect::gradient::sobel_gradients;
use feature_detect::gradient::sobel_kernels;
use feature_detect::gradient::sobel_operator;
use feature_detect::gradient::COEFFICIENT_LIMIT;
use feature_detect::grid::Grid;

fn vertical_edge() -> Grid {
    let mut samples = Vec::new();
    for _y in 0..5 {
        for x in 0..5 {
            samples.push(if x < 2 { 0 } else { 255 });
        }
    }
    Grid::new(5, 5, samples).unwrap()
}

fn busy_grid() -> Grid {
    Grid::new(
        5,
        5,
        vec![0, 0, 0, 0, 0, 0, 1, 20, 3, 0, 0, 9, 10, 25, 0, 0, 2, 18, 6, 0, 0, 0, 0, 0, 0],
    )
    .unwrap()
}

fn rising_to_the_right(top: u8) -> Grid {
    Grid::new(3, 3, vec![0, 0, top, 0, 0, top, 0, 0, top]).unwrap()
}

fn whole_degrees(gradients: &Vec<(i64, i64)>) -> Vec<i32> {
    gradients
        .iter()
        .map(|g| (g.1 as f64).atan2(g.0 as f64).to_degrees().round() as i32)
        .collect()
}

#[test]
fn isqrt_drops_the_fraction() {
    assert_eq!(isqrt(0), 0);
    assert_eq!(isqrt(1), 1);
    assert_eq!(isqrt(2), 1);
    assert_eq!(isqrt(3), 1);
    assert_eq!(isqrt(4), 2);
    assert_eq!(isqrt(24), 4);
    assert_eq!(isqrt(25), 5);
    assert_eq!(isqrt(1_040_400), 1020);
    assert_eq!(isqrt(1_040_399), 1019);
    assert_eq!(isqrt(2_080_800), 1442);
    assert_eq!(isqrt(u64::MAX as u128), 4_294_967_295);
    assert_eq!(isqrt(u128::MAX), u64::MAX);
    assert_eq!(isqrt(1u128 << 126), 1u64 << 63);
}

#[test]
fn isqrt_brackets_every_small_number() {
    for n in 0..20_000u128 {
        let r = isqrt(n) as u128;
        assert!(r * r <= n);
        assert!(n < (r + 1) * (r + 1));
    }
}

#[test]
fn gradient_magnitude_is_the_floored_length() {
    assert_eq!(gradient_magnitude(0, 0), 0);
    assert_eq!(gradient_magnitude(3, 4), 5);
    assert_eq!(gradient_magnitude(-3, 4), 5);
    assert_eq!(gradient_magnitude(3, -4), 5);
    assert_eq!(gradient_magnitude(1, 1), 1);
    assert_eq!(gradient_magnitude(1020, 0), 1020);
    assert_eq!(gradient_magnitude(1020, 1020), 1442);
    assert_eq!(gradient_magnitude(280, 500), 573);
    assert_eq!(gradient_magnitude(i64::MIN, 0), 1u64 << 63);
    assert_eq!(gradient_magnitude(i64::MIN, i64::MIN), 13_043_817_825_332_782_212);
}

#[test]
fn direction_bucket_follows_the_table() {
    assert_eq!(direction_bucket(0), 0);
    assert_eq!(direction_bucket(22), 0);
    assert_eq!(direction_bucket(23), 45);
    assert_eq!(direction_bucket(45), 45);
    assert_eq!(direction_bucket(68), 45);
    assert_eq!(direction_bucket(69), 90);
    assert_eq!(direction_bucket(90), 90);
    assert_eq!(direction_bucket(112), 90);
    assert_eq!(direction_bucket(113), 135);
    assert_eq!(direction_bucket(158), 135);
    assert_eq!(direction_bucket(159), 0);
    assert_eq!(direction_bucket(180), 0);
    assert_eq!(direction_bucket(-1), 0);
    assert_eq!(direction_bucket(-45), 0);
    assert_eq!(direction_bucket(-90), 0);
    assert_eq!(direction_bucket(-180), 0);
    assert_eq!(direction_bucket(i32::MAX), 0);
    assert_eq!(direction_bucket(i32::MIN), 0);
}

#[test]
fn direction_bucket_is_total_and_deterministic() {
    let mut counts = [0usize; 4];
    for angle in -180..=180 {
        let d = direction_bucket(angle);
        assert!(d == 0 || d == 45 || d == 90 || d == 135);
        assert_eq!(d, direction_bucket(angle));
        counts[(d / 45) as usize] += 1;
    }
    assert_eq!(counts, [225, 46, 44, 46]);
}

#[test]
fn sobel_kernels_are_the_two_sobel_operators() {
    let ops = sobel_kernels();
    assert_eq!(
        ops,
        vec![
            vec![vec![-1, 0, 1], vec![-2, 0, 2], vec![-1, 0, 1]],
            vec![vec![-1, -2, -1], vec![0, 0, 0], vec![1, 2, 1]],
        ]
    );
}

#[test]
fn operator_rows_lie_along_x() {
    let g = Grid::new(3, 3, vec![1, 2, 3, 4, 5, 6, 7, 8, 9]).unwrap();
    let pick_right = vec![vec![0, 0, 0], vec![0, 0, 1], vec![0, 0, 0]];
    assert_eq!(apply_operator(&g, &pick_right, 1, 1), 6);
    let pick_below = vec![vec![0, 0, 0], vec![0, 0, 0], vec![0, 1, 0]];
    assert_eq!(apply_operator(&g, &pick_below, 1, 1), 8);
    let pick_upper_left = vec![vec![1, 0, 0], vec![0, 0, 0], vec![0, 0, 0]];
    assert_eq!(apply_operator(&g, &pick_upper_left, 1, 1), 1);
    let pick_upper_right = vec![vec![0, 0, 1], vec![0, 0, 0], vec![0, 0, 0]];
    assert_eq!(apply_operator(&g, &pick_upper_right, 1, 1), 3);
    let ops = sobel_kernels();
    assert_eq!(apply_operator(&g, &ops[0], 1, 1), 8);
    assert_eq!(apply_operator(&g, &ops[1], 1, 1), 24);
}

#[test]
fn operator_takes_the_largest_coefficients() {
    let g = Grid::new(3, 3, vec![255; 9]).unwrap();
    let top = vec![vec![COEFFICIENT_LIMIT; 3]; 3];
    assert_eq!(apply_operator(&g, &top, 1, 1), 9 * 255 * 8_421_504);
    let bottom = vec![vec![-COEFFICIENT_LIMIT; 3]; 3];
    assert_eq!(apply_operator(&g, &bottom, 1, 1), -9 * 255 * 8_421_504);
    assert_eq!(gradient_magnitude(19_327_351_680, -19_327_351_680), 27_333_002_870);
    let ops = vec![top, bottom];
    let mags = gradient_magnitudes(&g, &ops);
    assert_eq!(mags.samples(), &vec![0, 0, 0, 0, 255, 0, 0, 0, 0]);
}

#[test]
fn sobel_gradients_of_a_vertical_edge() {
    let g = vertical_edge();
    let grads = sobel_gradients(&g, &sobel_kernels());
    assert_eq!(grads.len(), 25);
    for y in 0..5usize {
        for x in 0..5usize {
            let want = if (1..4).contains(&y) && (x == 1 || x == 2) { (1020, 0) } else { (0, 0) };
            assert_eq!(grads[y * 5 + x], want);
        }
    }
}

#[test]
fn gradient_along_x_of_an_image_that_rises_to_the_right() {
    let g = rising_to_the_right(10);
    let ops = sobel_kernels();
    let grads = sobel_gradients(&g, &ops);
    assert_eq!(grads[4], (40, 0));
    let angles = whole_degrees(&grads);
    assert_eq!(angles[4], 0);
    let (mag, dir) = sobel_operator(&g, &ops, &angles);
    assert_eq!(mag.get(1, 1), 40);
    assert_eq!(dir.get(1, 1), 0);
}

#[test]
fn gradient_along_y_of_an_image_that_rises_downwards() {
    let g = Grid::new(3, 3, vec![0, 0, 0, 0, 0, 0, 10, 10, 10]).unwrap();
    let ops = sobel_kernels();
    let grads = sobel_gradients(&g, &ops);
    assert_eq!(grads[4], (0, 40));
    let angles = whole_degrees(&grads);
    assert_eq!(angles[4], 90);
    let (mag, dir) = sobel_operator(&g, &ops, &angles);
    assert_eq!(mag.get(1, 1), 40);
    assert_eq!(dir.get(1, 1), 90);
}

#[test]
fn sobel_gradients_of_a_busy_grid() {
    let grads = sobel_gradients(&busy_grid(), &sobel_kernels());
    assert_eq!(
        grads,
        vec![
            (0, 0), (0, 0), (0, 0), (0, 0), (0, 0),
            (0, 0), (50, 28), (20, 54), (-50, 60), (0, 0),
            (0, 0), (58, 0), (38, 0), (-58, 4), (0, 0),
            (0, 0), (46, -28), (24, -54), (-46, -60), (0, 0),
            (0, 0), (0, 0), (0, 0), (0, 0), (0, 0),
        ]
    );
    assert_eq!(
        whole_degrees(&grads),
        vec![
            0, 0, 0, 0, 0, 0, 29, 70, 130, 0, 0, 0, 0, 176, 0, 0, -31, -66, -127, 0, 0, 0, 0, 0, 0
        ]
    );
}

#[test]
fn magnitude_is_held_to_255() {
    // the length 1020 is far above the range of a sample
    let mags = gradient_magnitudes(&vertical_edge(), &sobel_kernels());
    assert_eq!(
        mags.samples(),
        &vec![
            0, 0, 0, 0, 0, 0, 255, 255, 0, 0, 0, 255, 255, 0, 0, 0, 255, 255, 0, 0, 0, 0, 0, 0, 0
        ]
    );
    // lengths of 252, 256 and 260
    let ops = sobel_kernels();
    assert_eq!(gradient_magnitudes(&rising_to_the_right(63), &ops).get(1, 1), 252);
    assert_eq!(gradient_magnitudes(&rising_to_the_right(64), &ops).get(1, 1), 255);
    assert_eq!(gradient_magnitudes(&rising_to_the_right(65), &ops).get(1, 1), 255);
}

#[test]
fn sobel_operator_gives_magnitude_and_direction() {
    let g = busy_grid();
    let ops = sobel_kernels();
    let angles = whole_degrees(&sobel_gradients(&g, &ops));
    let (mag, dir) = sobel_operator(&g, &ops, &angles);
    assert_eq!(
        mag.samples(),
        &vec![0, 0, 0, 0, 0, 0, 57, 57, 78, 0, 0, 58, 38, 58, 0, 0, 53, 59, 75, 0, 0, 0, 0, 0, 0]
    );
    assert_eq!(
        dir.samples(),
        &vec![0, 0, 0, 0, 0, 0, 45, 90, 135, 0, 0, 0, 0, 0, 0, 0, 0, 0, 0, 0, 0, 0, 0, 0, 0]
    );
    assert_eq!((mag.width(), mag.height()), (5, 5));
    assert_eq!((dir.width(), dir.height()), (5, 5));
}

#[test]
fn directions_leave_the_outer_ring_at_zero() {
    let dir = gradient_directions(4, 3, &vec![45; 12]);
    assert_eq!(dir.samples(), &vec![0, 0, 0, 0, 0, 45, 45, 0, 0, 0, 0, 0]);
    let thin = gradient_directions(2, 2, &vec![90; 4]);
    assert_eq!(thin.samples(), &vec![0; 4]);
    let none = gradient_directions(0, 0, &vec![]);
    assert_eq!(none.len(), 0);
}

#[test]
fn a_grid_without_interior_has_no_gradient() {
    let g = Grid::new(2, 4, vec![9, 200, 3, 40, 5, 60, 7, 80]).unwrap();
    assert_eq!(sobel_gradients(&g, &sobel_kernels()), vec![(0, 0); 8]);
    assert_eq!(gradient_magnitudes(&g, &sobel_kernels()).samples(), &vec![0; 8]);
}
