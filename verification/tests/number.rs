use tonic_runtime::integer::Integer;
use tonic_runtime::number::ratio;

fn whole(n: i64) -> Integer {
    Integer::from_i64(n)
}

#[test]
fn exact_ratios_and_subnormal_ties() {
    let huge = whole(1).shift_left(4000);
    assert_eq!(ratio(&huge, &huge).unwrap(), 1.0f64.to_bits());
    let denominator = whole(1).shift_left(1075);
    assert_eq!(ratio(&whole(1), &denominator).unwrap(), 0);
    assert_eq!(ratio(&whole(3), &denominator).unwrap(), 2);
    assert_eq!(
        ratio(&whole(0), &whole(-1)).unwrap(),
        (-0.0f64).to_bits()
    );
    assert_eq!(
        ratio(&whole(1).shift_left(1024), &whole(1))
            .unwrap_err()
            .kind,
        "OverflowError"
    );
}

#[test]
fn ratios_are_the_quotients_of_floats() {
    for (x, y) in [(1i64, 3i64), (-7, 2), (10, -4), (1, 10), (2, 3), (123456789, 1000)] {
        assert_eq!(
            ratio(&whole(x), &whole(y)).unwrap(),
            (x as f64 / y as f64).to_bits()
        );
    }
    assert_eq!(
        ratio(&whole(1), &whole(0)).unwrap_err().kind,
        "ZeroDivisionError"
    );
}
