use cusk::number::Number;

fn number(x: f64) -> Number {
    Number { bits: x.to_bits() }
}

const SAMPLES: [f64; 11] = [
    f64::NEG_INFINITY,
    -1.0e300,
    -2.5,
    -1.0,
    -f64::MIN_POSITIVE,
    0.0,
    5.0e-324,
    0.1,
    1.0,
    1.0e300,
    f64::INFINITY,
];

#[test]
fn comparison_agrees_with_the_machine() {
    for a in SAMPLES {
        for b in SAMPLES {
            assert_eq!(number(a).less_than(number(b)), a < b, "{a} < {b}");
            assert_eq!(number(a).equals(number(b)), a == b, "{a} == {b}");
        }
        assert!(!number(a).less_than(number(f64::NAN)));
        assert!(!number(f64::NAN).equals(number(a)));
    }
    assert!(number(0.0).equals(number(-0.0)));
    assert!(number(-0.0).is_zero() && !number(5.0e-324).is_zero());
    assert!(number(f64::NAN).is_nan());
}

#[test]
fn clamping_agrees_with_the_machine() {
    for a in SAMPLES {
        assert_eq!(number(a).clamped(number(0.1), number(0.9)), number(a.clamp(0.1, 0.9)), "{a}");
    }
}

#[test]
fn whole_numbers_and_halves_are_exact() {
    for n in [i32::MIN, -1_000_001, -3, -1, 0, 1, 2, 3, 41, 1919, 16_777_217, i32::MAX] {
        assert_eq!(Number::from_integer(n), number(n as f64), "{n}");
        assert_eq!(Number::half_of(n), number(n as f64 / 2.0), "{n}");
    }
}
