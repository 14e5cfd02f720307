use feature_detect::edges::brighten_edges;
use feature_detect::edges::detect_edges;
use feature_detect::edges::detect_gradient;
use feature_detect::edges::double_threshold;
use feature_detect::edges::non_maximum_suppression;
use feature_detect::error::DetectError;
use feature_detect::fraction::Fraction;
use feature_detect::gradient::sobel_gradients;
use feature_detect::gradient::sobel_kernels;
use feature_detect::grid::Grid;

fn fraction(num: i32, den: u32) -> Fraction {
    Fraction::new(num, den).unwrap()
}

fn sobel_angles(image: &Grid) -> Vec<i32> {
    sobel_gradients(image, &sobel_kernels())
        .iter()
        .map(|g| (g.1 as f64).atan2(g.0 as f64).to_degrees().round() as i32)
        .collect()
}

fn hard_vertical_edge() -> Grid {
    let mut samples = Vec::new();
    for _y in 0..5 {
        for x in 0..5 {
            samples.push(if x < 2 { 0 } else { 255 });
        }
    }
    Grid::new(5, 5, samples).unwrap()
}

fn textured_grid() -> Grid {
    Grid::new(
        5,
        5,
        vec![0, 0, 0, 0, 0, 0, 1, 20, 3, 0, 0, 9, 10, 25, 0, 0, 2, 18, 6, 0, 0, 0, 0, 0, 0],
    )
    .unwrap()
}

fn soft_vertical_edge() -> Grid {
    let columns = [0u8, 0, 5, 30, 55, 60, 60];
    let mut samples = Vec::new();
    for _y in 0..5 {
        for x in 0..7 {
            samples.push(columns[x]);
        }
    }
    Grid::new(7, 5, samples).unwrap()
}

fn soft_horizontal_edge() -> Grid {
    let rows = [0u8, 0, 5, 30, 55, 60, 60];
    let mut samples = Vec::new();
    for y in 0..7 {
        for _x in 0..5 {
            samples.push(rows[y]);
        }
    }
    Grid::new(5, 7, samples).unwrap()
}

#[test]
fn fraction_wants_a_positive_denominator() {
    assert!(Fraction::new(1, 0).is_none());
    assert!(Fraction::new(0, 0).is_none());
    let f = Fraction::new(-3, 10).unwrap();
    assert_eq!(f.num(), -3);
    assert_eq!(f.den(), 10);
}

#[test]
fn suppression_keeps_peaks_along_the_direction() {
    let mag = Grid::new(
        5,
        5,
        vec![5, 5, 5, 5, 5, 5, 9, 7, 9, 5, 5, 7, 8, 7, 5, 5, 9, 7, 3, 5, 5, 5, 5, 5, 5],
    )
    .unwrap();
    let dir = Grid::new(
        5,
        5,
        vec![
            0, 0, 0, 0, 0, 0, 0, 45, 90, 0, 0, 135, 0, 45, 0, 0, 90, 135, 7, 0, 0, 0, 0, 0, 0,
        ],
    )
    .unwrap();
    let thinned = non_maximum_suppression(&mag, &dir);
    assert_eq!(
        thinned.samples(),
        &vec![0, 0, 0, 0, 0, 0, 9, 7, 9, 0, 0, 7, 8, 7, 0, 0, 9, 7, 0, 0, 0, 0, 0, 0, 0]
    );
}

#[test]
fn suppression_zeroes_what_a_neighbour_exceeds() {
    let mag = Grid::new(3, 3, vec![0, 0, 0, 9, 8, 1, 0, 9, 0]).unwrap();
    let across = Grid::new(3, 3, vec![0; 9]).unwrap();
    assert_eq!(
        non_maximum_suppression(&mag, &across).samples(),
        &vec![0, 0, 0, 0, 0, 0, 0, 0, 0]
    );
    let along = Grid::new(3, 3, vec![90; 9]).unwrap();
    assert_eq!(non_maximum_suppression(&mag, &along).samples(), &vec![0; 9]);
    let rising = Grid::new(3, 3, vec![45; 9]).unwrap();
    assert_eq!(
        non_maximum_suppression(&mag, &rising).samples(),
        &vec![0, 0, 0, 0, 8, 0, 0, 0, 0]
    );
    let falling = Grid::new(3, 3, vec![135; 9]).unwrap();
    assert_eq!(
        non_maximum_suppression(&mag, &falling).samples(),
        &vec![0, 0, 0, 0, 8, 0, 0, 0, 0]
    );
}

#[test]
fn suppression_tells_the_two_diagonals_apart() {
    // the upper right neighbour is the larger one
    let mag = Grid::new(3, 3, vec![0, 0, 9, 0, 5, 0, 0, 0, 0]).unwrap();
    let rising = Grid::new(3, 3, vec![45; 9]).unwrap();
    assert_eq!(non_maximum_suppression(&mag, &rising).samples(), &vec![0; 9]);
    let falling = Grid::new(3, 3, vec![135; 9]).unwrap();
    assert_eq!(
        non_maximum_suppression(&mag, &falling).samples(),
        &vec![0, 0, 0, 0, 5, 0, 0, 0, 0]
    );
    // the neighbour below is the larger one
    let below = Grid::new(3, 3, vec![0, 0, 0, 0, 5, 0, 0, 9, 0]).unwrap();
    let vertical = Grid::new(3, 3, vec![90; 9]).unwrap();
    assert_eq!(non_maximum_suppression(&below, &vertical).samples(), &vec![0; 9]);
    let horizontal = Grid::new(3, 3, vec![0; 9]).unwrap();
    assert_eq!(
        non_maximum_suppression(&below, &horizontal).samples(),
        &vec![0, 0, 0, 0, 5, 0, 0, 0, 0]
    );
}

#[test]
fn suppression_is_idempotent() {
    let g = textured_grid();
    let ops = sobel_kernels();
    let angles = sobel_angles(&g);
    let (mag, dir) = feature_detect::gradient::sobel_operator(&g, &ops, &angles);
    let once = non_maximum_suppression(&mag, &dir);
    assert_eq!(
        once.samples(),
        &vec![0, 0, 0, 0, 0, 0, 57, 57, 78, 0, 0, 58, 0, 58, 0, 0, 0, 0, 75, 0, 0, 0, 0, 0, 0]
    );
    let twice = non_maximum_suppression(&once, &dir);
    assert_eq!(twice.samples(), once.samples());
}

#[test]
fn suppression_is_idempotent_on_fields_with_a_border() {
    let mut samples = Vec::new();
    let mut directions = Vec::new();
    let mut seed: u32 = 12345;
    for _ in 0..(7 * 6) {
        seed = seed.wrapping_mul(1_103_515_245).wrapping_add(12345);
        samples.push((seed >> 16) as u8);
        seed = seed.wrapping_mul(1_103_515_245).wrapping_add(12345);
        directions.push([0u8, 45, 90, 135, 17][((seed >> 16) % 5) as usize]);
    }
    let mag = Grid::new(7, 6, samples).unwrap();
    let dir = Grid::new(7, 6, directions).unwrap();
    let once = non_maximum_suppression(&mag, &dir);
    let twice = non_maximum_suppression(&once, &dir);
    assert_eq!(twice.samples(), once.samples());
    for x in 0..7 {
        assert_eq!(once.get(x, 0), 0);
        assert_eq!(once.get(x, 5), 0);
    }
    for y in 0..6 {
        assert_eq!(once.get(0, y), 0);
        assert_eq!(once.get(6, y), 0);
    }
}

#[test]
fn threshold_zeroes_what_is_strictly_below() {
    let g = Grid::new(4, 2, vec![0, 1, 76, 77, 127, 128, 254, 255]).unwrap();
    // 0.3 * 255 is 76.5
    assert_eq!(
        double_threshold(&g, fraction(3, 10)).samples(),
        &vec![0, 0, 0, 77, 127, 128, 254, 255]
    );
    // 0.5 * 255 is 127.5
    assert_eq!(
        double_threshold(&g, fraction(1, 2)).samples(),
        &vec![0, 0, 0, 0, 0, 128, 254, 255]
    );
    // 1/255 * 255 is exactly 1, and 1 is not strictly below it
    assert_eq!(
        double_threshold(&g, fraction(1, 255)).samples(),
        &vec![0, 1, 76, 77, 127, 128, 254, 255]
    );
    assert_eq!(
        double_threshold(&g, fraction(0, 1)).samples(),
        &vec![0, 1, 76, 77, 127, 128, 254, 255]
    );
    assert_eq!(
        double_threshold(&g, fraction(1, 1)).samples(),
        &vec![0, 0, 0, 0, 0, 0, 0, 255]
    );
    assert_eq!(double_threshold(&g, fraction(2, 1)).samples(), &vec![0; 8]);
    assert_eq!(
        double_threshold(&g, fraction(-1, 2)).samples(),
        &vec![0, 1, 76, 77, 127, 128, 254, 255]
    );
    assert_eq!(
        double_threshold(&g, fraction(i32::MAX, u32::MAX)).samples(),
        &vec![0, 0, 0, 0, 0, 128, 254, 255]
    );
}

#[test]
fn threshold_output_has_nothing_below_but_zero() {
    let samples: Vec<u8> = (0..=255u32).map(|v| v as u8).collect();
    let g = Grid::new(16, 16, samples).unwrap();
    for (num, den) in [(3i32, 10u32), (1, 3), (2, 7), (99, 100), (1, 1000)] {
        let out = double_threshold(&g, fraction(num, den));
        for v in out.samples() {
            assert!(*v == 0 || (*v as i64) * (den as i64) >= 255 * (num as i64));
        }
    }
}

#[test]
fn uniform_grid_has_no_edges() {
    let g = Grid::new(5, 5, vec![128; 25]).unwrap();
    let angles = sobel_angles(&g);
    let edges = detect_edges(&g, fraction(1, 1), &angles, fraction(3, 10)).unwrap();
    assert_eq!(edges.samples(), &vec![0; 25]);
    assert_eq!((edges.width(), edges.height()), (5, 5));
    let all = detect_edges(&g, fraction(1, 1), &vec![77; 25], fraction(0, 1)).unwrap();
    assert_eq!(all.samples(), &vec![0; 25]);
    assert_eq!(detect_gradient(&g, fraction(1, 1)).unwrap().samples(), &vec![0; 25]);
}

#[test]
fn uniform_grid_stays_without_edges_after_a_blur() {
    let raw = image::GrayImage::from_raw(5, 5, vec![128u8; 25]).unwrap();
    for (sigma, strength) in [(0.4f32, fraction(4, 10)), (1.0, fraction(1, 1)), (2.5, fraction(25, 10))] {
        let blurred = image::imageops::blur(&raw, sigma);
        let g = Grid::new(5, 5, blurred.into_raw()).unwrap();
        let angles = sobel_angles(&g);
        let edges = detect_edges(&g, strength, &angles, fraction(3, 10)).unwrap();
        assert_eq!(edges.samples(), &vec![0; 25]);
    }
}

#[test]
fn hard_vertical_edge_peaks_at_the_boundary() {
    let mags = detect_gradient(&hard_vertical_edge(), fraction(1, 100)).unwrap();
    let peak = *mags.samples().iter().max().unwrap();
    assert_eq!(peak, 255);
    for y in 0..5u32 {
        for x in 0..5u32 {
            let at_boundary = (1..4).contains(&y) && (x == 1 || x == 2);
            assert_eq!(mags.get(x, y), if at_boundary { peak } else { 0 });
        }
    }
}

#[test]
fn edges_of_a_hard_vertical_edge() {
    let g = hard_vertical_edge();
    let angles = sobel_angles(&g);
    assert_eq!(angles, vec![0; 25]);
    let edges = detect_edges(&g, fraction(1, 1), &angles, fraction(3, 10)).unwrap();
    assert_eq!(
        edges.samples(),
        &vec![
            0, 0, 0, 0, 0, 0, 255, 255, 0, 0, 0, 255, 255, 0, 0, 0, 255, 255, 0, 0, 0, 0, 0, 0, 0
        ]
    );
}

#[test]
fn a_soft_vertical_edge_is_thinned_across_it() {
    let g = soft_vertical_edge();
    let mags = detect_gradient(&g, fraction(1, 1)).unwrap();
    assert_eq!(&mags.samples()[7..14], &[0, 20, 120, 200, 120, 20, 0]);
    let angles = sobel_angles(&g);
    assert_eq!(angles, vec![0; 35]);
    let edges = detect_edges(&g, fraction(1, 1), &angles, fraction(0, 1)).unwrap();
    for y in 0..5u32 {
        for x in 0..7u32 {
            let on_the_edge = (1..4).contains(&y) && x == 3;
            assert_eq!(edges.get(x, y), if on_the_edge { 200 } else { 0 });
        }
    }
}

#[test]
fn a_soft_horizontal_edge_is_thinned_across_it() {
    let g = soft_horizontal_edge();
    let angles = sobel_angles(&g);
    for y in 1..6usize {
        for x in 1..4usize {
            assert_eq!(angles[y * 5 + x], 90);
        }
    }
    let edges = detect_edges(&g, fraction(1, 1), &angles, fraction(0, 1)).unwrap();
    for y in 0..7u32 {
        for x in 0..5u32 {
            let on_the_edge = (1..4).contains(&x) && y == 3;
            assert_eq!(edges.get(x, y), if on_the_edge { 200 } else { 0 });
        }
    }
}

#[test]
fn edges_of_a_textured_grid() {
    let g = textured_grid();
    let angles = sobel_angles(&g);
    assert_eq!(
        detect_edges(&g, fraction(1, 1), &angles, fraction(3, 10)).unwrap().samples(),
        &vec![0, 0, 0, 0, 0, 0, 0, 0, 78, 0, 0, 0, 0, 0, 0, 0, 0, 0, 0, 0, 0, 0, 0, 0, 0]
    );
    assert_eq!(
        detect_edges(&g, fraction(1, 1), &angles, fraction(1, 5)).unwrap().samples(),
        &vec![0, 0, 0, 0, 0, 0, 57, 57, 78, 0, 0, 58, 0, 58, 0, 0, 0, 0, 75, 0, 0, 0, 0, 0, 0]
    );
}

#[test]
fn brightened_edges_keep_their_zeros() {
    let edges = Grid::new(4, 2, vec![0, 1, 5, 78, 200, 250, 255, 0]).unwrap();
    assert_eq!(
        brighten_edges(&edges, 10).samples(),
        &vec![0, 11, 15, 88, 210, 255, 255, 0]
    );
    assert_eq!(brighten_edges(&edges, 0).samples(), edges.samples());
    assert_eq!(
        brighten_edges(&edges, -10).samples(),
        &vec![0, 1, 1, 68, 190, 240, 245, 0]
    );
    assert_eq!(
        brighten_edges(&edges, i32::MAX).samples(),
        &vec![0, 255, 255, 255, 255, 255, 255, 0]
    );
    assert_eq!(
        brighten_edges(&edges, i32::MIN).samples(),
        &vec![0, 1, 1, 1, 1, 1, 1, 0]
    );
    for value in [-300, -255, -1, 0, 1, 10, 255, 300] {
        let shown = brighten_edges(&edges, value);
        for i in 0..8 {
            assert_eq!(shown.sample(i) == 0, edges.sample(i) == 0);
        }
    }
}

#[test]
fn brightened_edges_of_an_empty_grid() {
    let none = Grid::new(0, 3, vec![]).unwrap();
    let shown = brighten_edges(&none, 10);
    assert_eq!(shown.len(), 0);
    assert_eq!((shown.width(), shown.height()), (0, 3));
}

#[test]
fn edge_detector_refuses_empty_input() {
    let t = fraction(3, 10);
    let none = Grid::new(0, 0, vec![]).unwrap();
    assert_eq!(detect_edges(&none, fraction(1, 1), &vec![], t).err(), Some(DetectError::EmptyInput));
    assert_eq!(detect_gradient(&none, fraction(1, 1)).err(), Some(DetectError::EmptyInput));
    let flat = Grid::new(0, 7, vec![]).unwrap();
    assert_eq!(detect_edges(&flat, fraction(1, 1), &vec![], t).err(), Some(DetectError::EmptyInput));
    let thin = Grid::new(7, 0, vec![]).unwrap();
    assert_eq!(detect_gradient(&thin, fraction(1, 1)).err(), Some(DetectError::EmptyInput));
}

#[test]
fn edge_detector_refuses_grids_without_interior() {
    let t = fraction(3, 10);
    let narrow = Grid::new(2, 5, vec![1; 10]).unwrap();
    assert_eq!(detect_edges(&narrow, fraction(1, 1), &vec![0; 10], t).err(), Some(DetectError::InvalidParameter));
    assert_eq!(detect_gradient(&narrow, fraction(1, 1)).err(), Some(DetectError::InvalidParameter));
    let low = Grid::new(5, 1, vec![1; 5]).unwrap();
    assert_eq!(detect_gradient(&low, fraction(1, 1)).err(), Some(DetectError::InvalidParameter));
    let least = Grid::new(3, 3, vec![1; 9]).unwrap();
    assert!(detect_gradient(&least, fraction(1, 1)).is_ok());
    assert!(detect_edges(&least, fraction(1, 1), &vec![0; 9], t).is_ok());
}

#[test]
fn edge_detector_wants_one_angle_per_pixel() {
    let g = Grid::new(3, 3, vec![1; 9]).unwrap();
    let t = fraction(3, 10);
    assert_eq!(detect_edges(&g, fraction(1, 1), &vec![0; 8], t).err(), Some(DetectError::InvalidParameter));
    assert_eq!(detect_edges(&g, fraction(1, 1), &vec![0; 10], t).err(), Some(DetectError::InvalidParameter));
    assert_eq!(detect_edges(&g, fraction(1, 1), &vec![], t).err(), Some(DetectError::InvalidParameter));
}

#[test]
fn edge_detector_refuses_a_strength_that_is_not_positive() {
    let g = hard_vertical_edge();
    let angles = sobel_angles(&g);
    let t = fraction(3, 10);
    for sigma in [fraction(0, 1), fraction(-1, 1), fraction(-1, 1000), fraction(i32::MIN, 7)] {
        assert_eq!(
            detect_edges(&g, sigma, &angles, t).err(),
            Some(DetectError::InvalidParameter)
        );
        assert_eq!(detect_gradient(&g, sigma).err(), Some(DetectError::InvalidParameter));
    }
    for sigma in [fraction(1, 1_000_000), fraction(14, 10), fraction(i32::MAX, 1)] {
        assert!(detect_edges(&g, sigma, &angles, t).is_ok());
        assert!(detect_gradient(&g, sigma).is_ok());
    }
}

#[test]
fn empty_input_is_reported_before_the_strength() {
    let none = Grid::new(0, 0, vec![]).unwrap();
    assert_eq!(
        detect_edges(&none, fraction(0, 1), &vec![], fraction(3, 10)).err(),
        Some(DetectError::EmptyInput)
    );
    assert_eq!(detect_gradient(&none, fraction(-1, 1)).err(), Some(DetectError::EmptyInput));
}
