use ffix::dyadic::Dyadic;
use ffix::format::{Format, RoundingMode};
use ffix::quantization::quantize_fix;
use math::round;

fn number(x: f64) -> Dyadic {
    Dyadic::from_bits(x.to_bits()).unwrap()
}

fn grid(x: f64, mode: RoundingMode) -> f64 {
    let f = Format::new(true, 32, 0, mode).unwrap();
    quantize_fix(&number(x), &f) as f64
}

#[test]
fn floor_and_ceiling_agree_with_the_float_functions() {
    for x in [0.0, 0.25, 0.5, 0.75, 1.0, 2.5, 1234.5678, -0.25, -0.5, -0.75, -1.0, -2.5, -1234.5678] {
        assert_eq!(grid(x, RoundingMode::Floor), round::floor(x, 0), "floor of {}", x);
        assert_eq!(grid(x, RoundingMode::Ceiling), round::ceil(x, 0), "ceiling of {}", x);
        assert_eq!(grid(x, RoundingMode::Floor), x.floor());
        assert_eq!(grid(x, RoundingMode::Ceiling), x.ceil());
    }
}

#[test]
fn ties_and_clear_cases_agree_with_the_decimal_rounding_functions() {
    for x in [0.0, 0.25, 0.5, 0.75, 1.0, 1.5, 2.5, 3.25, 7.75, -0.25, -0.5, -0.75, -1.5, -2.5, -3.25, -7.75] {
        assert_eq!(grid(x, RoundingMode::TowardZero), round::half_towards_zero(x, 0), "toward zero of {}", x);
        assert_eq!(
            grid(x, RoundingMode::AwayFromZero),
            round::half_away_from_zero(x, 0),
            "away from zero of {}",
            x
        );
    }
}

#[test]
fn past_a_tie_the_nearest_grid_point_wins() {
    // 2.5625 lies nearer to 3 than to 2: no tie, whatever its first decimal is
    assert_eq!(grid(2.5625, RoundingMode::TowardZero), 3.0);
    assert_eq!(grid(-2.5625, RoundingMode::TowardZero), -3.0);
    assert_eq!(grid(2.5625, RoundingMode::AwayFromZero), 3.0);
    assert_eq!(grid(2.4375, RoundingMode::AwayFromZero), 2.0);
    assert_eq!(grid(-2.4375, RoundingMode::AwayFromZero), -2.0);
}
