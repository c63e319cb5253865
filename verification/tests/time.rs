use avcscope::time::fmt_time;
use avcscope::time::Timestamp;

#[test]
fn time_of_day() {
    let t = Timestamp { bits: 1717250001.111f64.to_bits() };
    assert_eq!(fmt_time(t), "13:53:21 UTC");
    assert_eq!(t.seconds(), 1717250001);
}

fn at(x: f64) -> Timestamp {
    Timestamp { bits: x.to_bits() }
}

const NUMBERS: [f64; 22] = [
    0.0,
    -0.0,
    5e-324,
    -5e-324,
    0.5,
    0.9999999999999999,
    1.0,
    -1.0,
    1.5,
    -1.5,
    86399.999,
    86400.0,
    4503599627370495.5,
    4503599627370497.0,
    9007199254740993.0,
    9.223372036854775e18,
    9.3e18,
    -9.223372036854775e18,
    -9.3e18,
    1e300,
    f64::INFINITY,
    f64::NEG_INFINITY,
];

#[test]
fn seconds_are_rounded_towards_zero() {
    for x in NUMBERS {
        assert_eq!(at(x).seconds(), x as i64, "{x}");
    }
    assert_eq!(at(f64::NAN).seconds(), 0);
    assert_eq!(at(-f64::NAN).seconds(), 0);
}

#[test]
fn timestamps_compare_as_their_numbers() {
    let mut all = NUMBERS.to_vec();
    all.push(f64::NAN);
    all.push(-f64::NAN);
    for &x in &all {
        assert_eq!(at(x).is_positive(), x > 0.0);
        assert_eq!(at(x).is_zero(), x == 0.0);
        for &y in &all {
            assert_eq!(at(x).is_less(&at(y)), x < y, "{x} {y}");
            assert_eq!(at(x).is_below(&at(y)), x.total_cmp(&y) == std::cmp::Ordering::Less, "{x} {y}");
        }
    }
    assert!(Timestamp::origin().is_zero());
}

#[test]
fn time_of_day_at_the_edges() {
    assert_eq!(fmt_time(at(0.0)), "n/a");
    assert_eq!(fmt_time(at(-0.0)), "n/a");
    assert_eq!(fmt_time(at(-12.0)), "n/a");
    assert_eq!(fmt_time(at(f64::NEG_INFINITY)), "n/a");
    assert_eq!(fmt_time(at(0.5)), "00:00:00 UTC");
    assert_eq!(fmt_time(at(86399.9)), "23:59:59 UTC");
    assert_eq!(fmt_time(at(86400.0)), "00:00:00 UTC");
    assert_eq!(fmt_time(at(3661.0)), "01:01:01 UTC");
    assert_eq!(fmt_time(at(f64::NAN)), "00:00:00 UTC");
    assert_eq!(fmt_time(at(f64::INFINITY)), "15:30:07 UTC");
}
