use oxipaint::canvas::Canvas;
use oxipaint::point::Coordinate;

fn coordinate(value: f64) -> Coordinate {
    Coordinate::from_bits(value.to_bits())
}

fn contains(canvas: &Canvas, x: f64, y: f64) -> bool {
    canvas.contains_point(coordinate(x), coordinate(y))
}

/// Numbers of every kind: zeros, subnormals, fractions, whole numbers
/// around the limits used below, huge numbers, infinities and NaNs.
fn samples() -> Vec<f64> {
    let mut values = vec![
        0.0,
        -0.0,
        f64::MIN_POSITIVE,
        -f64::MIN_POSITIVE,
        f64::from_bits(1),
        f64::from_bits(1 | (1 << 63)),
        f64::from_bits(0x000f_ffff_ffff_ffff),
        f64::EPSILON,
        0.001,
        -0.001,
        0.5,
        -0.5,
        0.999_999_999_999,
        1.0,
        -1.0,
        1.5,
        2.0,
        599.0,
        599.999_999,
        600.0,
        600.000_001,
        799.0,
        799.5,
        799.999_999_999_9,
        800.0,
        800.000_000_000_1,
        801.0,
        4_294_967_294.0,
        4_294_967_294.5,
        4_294_967_295.0,
        4_294_967_295.5,
        4_294_967_296.0,
        4_503_599_627_370_496.0,
        9_007_199_254_740_992.0,
        1.0e19,
        1.0e300,
        -1.0e300,
        f64::MAX,
        f64::MIN,
        f64::INFINITY,
        f64::NEG_INFINITY,
        f64::NAN,
        -f64::NAN,
        f64::from_bits(0x7ff0_0000_0000_0001),
        f64::from_bits(0xfff8_0000_0000_0000),
    ];
    for power in -1080..1030 {
        let value = 2.0f64.powi(power);
        values.push(value);
        values.push(-value);
        values.push(value * 1.5);
        values.push(799.0 + value);
        values.push(800.0 - value);
    }
    values
}

#[test]
fn contains_point_is_half_open() {
    let canvas = Canvas::new(800, 600);
    assert!(contains(&canvas, 0.0, 0.0));
    assert!(!contains(&canvas, 800.0, 0.0));
    assert!(!contains(&canvas, -0.001, 0.0));
}

#[test]
fn contains_point_takes_fractions() {
    let canvas = Canvas::new(800, 600);
    assert!(contains(&canvas, 799.999, 599.999));
    assert!(contains(&canvas, 0.5, 0.25));
    assert!(contains(&canvas, f64::MIN_POSITIVE, f64::from_bits(1)));
    assert!(!contains(&canvas, 0.0, 600.0));
    assert!(!contains(&canvas, 0.0, -0.001));
    assert!(!contains(&canvas, 800.000_001, 0.0));
    assert!(contains(&canvas, 700.0, 599.0));
    assert!(!contains(&canvas, 599.0, 700.0));
}

#[test]
fn contains_point_counts_the_negative_zero_as_zero() {
    let canvas = Canvas::new(800, 600);
    assert!(contains(&canvas, -0.0, 0.0));
    assert!(contains(&canvas, 0.0, -0.0));
    assert!(contains(&canvas, -0.0, -0.0));
}

#[test]
fn contains_point_refuses_what_is_not_a_finite_number() {
    let canvas = Canvas::new(800, 600);
    for odd in [f64::NAN, -f64::NAN, f64::INFINITY, f64::NEG_INFINITY] {
        assert!(!contains(&canvas, odd, 0.0));
        assert!(!contains(&canvas, 0.0, odd));
        assert!(!contains(&canvas, odd, odd));
    }
}

#[test]
fn contains_point_on_a_canvas_without_pixels_is_false() {
    for canvas in [Canvas::new(0, 600), Canvas::new(800, 0), Canvas::new(0, 0)] {
        assert!(!contains(&canvas, 0.0, 0.0));
        assert!(!contains(&canvas, -0.0, -0.0));
        assert!(!contains(&canvas, 1.0, 1.0));
    }
}

#[test]
fn contains_point_agrees_with_the_comparison_of_numbers() {
    let canvas = Canvas::new(800, 600);
    let values = samples();
    for &x in &values {
        for &y in &[0.0, 599.0, 600.0, -1.0, f64::NAN] {
            let expected = 0.0 <= x && x < 800.0 && 0.0 <= y && y < 600.0;
            assert_eq!(contains(&canvas, x, y), expected, "x = {:e}, y = {:e}", x, y);
        }
        for &other in &[0.0, 799.0, 800.0, -1.0, f64::INFINITY] {
            let expected = 0.0 <= other && other < 800.0 && 0.0 <= x && x < 600.0;
            assert_eq!(contains(&canvas, other, x), expected, "x = {:e}, y = {:e}", other, x);
        }
    }
}

#[test]
fn lies_below_agrees_with_the_comparison_of_numbers() {
    let limits = [0u32, 1, 2, 3, 600, 800, 65_536, 4_294_967_294, u32::MAX];
    for value in samples() {
        for limit in limits {
            let expected = 0.0 <= value && value < f64::from(limit);
            assert_eq!(
                coordinate(value).lies_below(limit),
                expected,
                "value = {:e}, limit = {}",
                value,
                limit
            );
        }
    }
}

#[test]
fn lies_below_goes_by_the_whole_part() {
    assert!(coordinate(2.999_999).lies_below(3));
    assert!(!coordinate(3.0).lies_below(3));
    assert!(coordinate(4_294_967_294.999).lies_below(u32::MAX));
    assert!(!coordinate(4_294_967_295.0).lies_below(u32::MAX));
    assert!(coordinate(0.0).lies_below(1));
    assert!(!coordinate(0.0).lies_below(0));
}

#[test]
fn coordinate_keeps_its_bits() {
    assert_eq!(Coordinate::from_bits(0x4089_0000_0000_0000).bits, 800.0f64.to_bits());
    assert_eq!(coordinate(-0.0).bits, 1 << 63);
    assert_ne!(coordinate(0.0), coordinate(-0.0));
}
