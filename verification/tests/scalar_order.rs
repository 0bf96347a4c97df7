use donut::scalar::Scalar;

fn scalar(x: f64) -> Scalar {
    Scalar::from_bits(x.to_bits())
}

fn specimens() -> Vec<f64> {
    vec![
        0.0,
        -0.0,
        1.0,
        -1.0,
        0.3,
        0.5,
        0.999_999_999,
        1.000_000_1,
        1.5,
        2.0,
        6.283185307179586,
        -6.283185307179586,
        6.283185307179587,
        7.0,
        -7.0,
        1e-320,
        -1e-320,
        f64::MIN_POSITIVE,
        f64::MAX,
        f64::MIN,
        f64::INFINITY,
        f64::NEG_INFINITY,
        f64::NAN,
        4503599627370496.0,
        9007199254740992.0,
        9223372036854775808.0,
        18446744073709551616.0,
        123456.789,
        199.99999999999997,
        200.0,
    ]
}

#[test]
fn bits_round_trip() {
    for x in specimens() {
        assert_eq!(scalar(x).to_bits(), x.to_bits());
    }
}

#[test]
fn constants_are_the_numbers_they_name() {
    assert_eq!(Scalar::zero().to_bits(), 0.0f64.to_bits());
    assert_eq!(Scalar::one().to_bits(), 1.0f64.to_bits());
    assert_eq!(Scalar::full_turn().to_bits(), (2.0 * std::f64::consts::PI).to_bits());
    assert_eq!(Scalar::full_turn_back().to_bits(), (-2.0 * std::f64::consts::PI).to_bits());
}

#[test]
fn nan_is_recognised() {
    for x in specimens() {
        assert_eq!(scalar(x).nan(), x.is_nan(), "{}", x);
    }
}

#[test]
fn lt_orders_as_the_numbers_do() {
    for a in specimens() {
        for b in specimens() {
            assert_eq!(scalar(a).lt(scalar(b)), a < b, "{} < {}", a, b);
        }
    }
}

#[test]
fn le_orders_as_the_numbers_do() {
    for a in specimens() {
        for b in specimens() {
            assert_eq!(scalar(a).le(scalar(b)), a <= b, "{} <= {}", a, b);
        }
    }
}

#[test]
fn the_two_zeros_are_equal_in_order() {
    assert!(scalar(0.0).le(scalar(-0.0)));
    assert!(scalar(-0.0).le(scalar(0.0)));
    assert!(!scalar(-0.0).lt(scalar(0.0)));
}

#[test]
fn cell_is_the_truncated_coordinate_inside_the_axis() {
    let limits: Vec<u64> = vec![0, 1, 2, 100, 200, 4096, 1 << 40, 1 << 53, u64::MAX];
    for x in specimens() {
        for &limit in limits.iter() {
            let expected = if x >= 0.0 && x < limit as f64 { Some(x as u64) } else { None };
            if limit > (1 << 53) {
                continue;
            }
            assert_eq!(scalar(x).cell_below(limit), expected, "{} on {}", x, limit);
        }
    }
}

#[test]
fn cell_of_fractions_and_edges() {
    assert_eq!(scalar(0.0).cell_below(10), Some(0));
    assert_eq!(scalar(-0.0).cell_below(10), Some(0));
    assert_eq!(scalar(0.999).cell_below(10), Some(0));
    assert_eq!(scalar(1.0).cell_below(10), Some(1));
    assert_eq!(scalar(9.999).cell_below(10), Some(9));
    assert_eq!(scalar(10.0).cell_below(10), None);
    assert_eq!(scalar(-0.001).cell_below(10), None);
    assert_eq!(scalar(f64::NAN).cell_below(10), None);
    assert_eq!(scalar(f64::INFINITY).cell_below(u64::MAX), None);
    assert_eq!(scalar(5.0).cell_below(0), None);
    assert_eq!(scalar(1e-320).cell_below(1), Some(0));
}

#[test]
fn cell_of_large_coordinates() {
    assert_eq!(scalar(4503599627370496.0).cell_below(u64::MAX), Some(1 << 52));
    assert_eq!(scalar(9007199254740993.0).cell_below(u64::MAX), Some(9007199254740992));
    assert_eq!(scalar(9223372036854775808.0).cell_below(u64::MAX), Some(1 << 63));
    assert_eq!(scalar(18446744073709549568.0).cell_below(u64::MAX), Some(18446744073709549568));
    assert_eq!(scalar(18446744073709551616.0).cell_below(u64::MAX), None);
}

#[test]
fn cell_agrees_with_truncation_on_a_sweep() {
    let mut x = -3.0f64;
    while x < 70.0 {
        let expected = if x >= 0.0 && x < 64.0 { Some(x as u64) } else { None };
        assert_eq!(scalar(x).cell_below(64), expected, "{}", x);
        x += 0.0625 + 1e-9;
    }
}
