use serde_json::Number as JsonNumber;
use typed_json::number::{find_float, is_finite};
use typed_json::{Number, N};

fn float(x: f64) -> JsonNumber {
    JsonNumber::from_f64(x).unwrap()
}

#[test]
fn zero_is_an_unsigned_integer_and_comes_back() {
    let n = JsonNumber::from(0u64);
    let typed = N::classify(&n);
    assert_eq!(typed, N::PosInt(0));
    assert_eq!(typed.to_json(&Vec::new()), Some(n));
}

#[test]
fn minus_five_is_a_negative_integer_and_comes_back() {
    let n = JsonNumber::from(-5i64);
    let typed = N::classify(&n);
    assert_eq!(typed, N::NegInt(-5));
    assert_eq!(typed.to_json(&Vec::new()), Some(n));
}

#[test]
fn a_fraction_is_a_float_and_comes_back() {
    let n = float(3.14);
    let typed = N::classify(&n);
    assert_eq!(typed, N::Float(3.14f64.to_bits()));
    let back = typed.to_json(&vec![float(3.14)]).unwrap();
    assert_eq!(back, n);
    assert_eq!(back.as_f64().unwrap().to_bits(), 3.14f64.to_bits());
}

#[test]
fn the_largest_unsigned_integer_is_unsigned() {
    let n = JsonNumber::from(u64::MAX);
    assert_eq!(N::classify(&n), N::PosInt(u64::MAX));
    assert_eq!(N::PosInt(u64::MAX).to_json(&Vec::new()).unwrap().as_u64(), Some(u64::MAX));
}

#[test]
fn an_integer_above_the_signed_range_is_unsigned() {
    let n = JsonNumber::from(9_223_372_036_854_775_808u64);
    assert_eq!(N::classify(&n), N::PosInt(9_223_372_036_854_775_808));
}

#[test]
fn the_smallest_signed_integer_is_negative() {
    let n = JsonNumber::from(i64::MIN);
    assert_eq!(N::classify(&n), N::NegInt(i64::MIN));
    assert_eq!(N::NegInt(i64::MIN).to_json(&Vec::new()).unwrap().as_i64(), Some(i64::MIN));
}

#[test]
fn a_signed_integer_that_is_not_negative_is_unsigned() {
    let n = JsonNumber::from(7i64);
    assert_eq!(N::classify(&n), N::PosInt(7));
}

#[test]
fn a_float_with_an_integer_value_stays_a_float() {
    let n = float(3.0);
    assert_eq!(N::classify(&n), N::Float(3.0f64.to_bits()));
}

#[test]
fn negative_zero_keeps_its_sign_bit() {
    let n = float(-0.0);
    assert_eq!(N::classify(&n), N::Float(0x8000_0000_0000_0000));
}

#[test]
fn a_float_beyond_the_integers_is_a_float() {
    let n = float(1.0e300);
    assert_eq!(N::classify(&n), N::Float(1.0e300f64.to_bits()));
    let n = float(-1.5e-300);
    assert_eq!(N::classify(&n), N::Float((-1.5e-300f64).to_bits()));
}

#[test]
fn an_unsigned_form_gives_that_integer() {
    let n = N::PosInt(42).to_json(&Vec::new()).unwrap();
    assert_eq!(n.as_u64(), Some(42));
    assert_eq!(n, JsonNumber::from(42u64));
}

#[test]
fn a_negative_form_gives_that_integer() {
    let n = N::NegInt(-42).to_json(&Vec::new()).unwrap();
    assert_eq!(n.as_i64(), Some(-42));
    assert_eq!(n.as_u64(), None);
}

#[test]
fn a_negative_form_that_is_not_negative_gives_the_unsigned_number() {
    let n = N::NegInt(5).to_json(&Vec::new()).unwrap();
    assert_eq!(n.as_u64(), Some(5));
    assert_eq!(N::classify(&n), N::PosInt(5));
}

#[test]
fn a_float_form_without_its_number_gives_nothing() {
    let bits = 2.5f64.to_bits();
    assert_eq!(N::Float(bits).to_json(&Vec::new()), None);
    assert_eq!(N::Float(bits).to_json(&vec![float(2.25), JsonNumber::from(2u64)]), None);
}

#[test]
fn a_float_form_that_is_not_finite_gives_nothing() {
    let pool = vec![float(0.0), float(1.0), float(f64::MAX)];
    assert_eq!(N::Float(f64::INFINITY.to_bits()).to_json(&pool), None);
    assert_eq!(N::Float(f64::NAN.to_bits()).to_json(&pool), None);
}

#[test]
fn a_float_is_found_among_other_numbers() {
    let pool = vec![JsonNumber::from(1u64), float(1.0), JsonNumber::from(-1i64), float(2.5)];
    assert_eq!(find_float(&pool, 2.5f64.to_bits()), Some(float(2.5)));
    assert_eq!(find_float(&pool, 1.0f64.to_bits()), Some(float(1.0)));
    assert_eq!(find_float(&pool, 3.5f64.to_bits()), None);
}

#[test]
fn an_integer_is_not_taken_for_the_float_of_its_value() {
    let pool = vec![JsonNumber::from(1u64)];
    assert_eq!(find_float(&pool, 1.0f64.to_bits()), None);
}

#[test]
fn numbers_convert_through_from() {
    assert_eq!(N::from(JsonNumber::from(9u64)), N::PosInt(9));
    assert_eq!(Number::from(JsonNumber::from(-9i64)), Number { n: N::NegInt(-9) });
    assert_eq!(Number::from(float(0.5)), Number { n: N::Float(0.5f64.to_bits()) });
}

#[test]
fn a_typed_number_gives_its_json_number() {
    let pool = vec![float(0.5)];
    assert_eq!(Number { n: N::PosInt(1) }.to_json(&pool), Some(JsonNumber::from(1u64)));
    assert_eq!(Number { n: N::Float(0.5f64.to_bits()) }.to_json(&pool), Some(float(0.5)));
    assert_eq!(Number { n: N::Float(0.25f64.to_bits()) }.to_json(&pool), None);
}

#[test]
fn every_unsigned_sample_round_trips() {
    for u in [0u64, 1, 2, 255, 65_536, 1 << 53, (1 << 63) - 1, 1 << 63, u64::MAX - 1, u64::MAX] {
        let n = JsonNumber::from(u);
        let typed = N::classify(&n);
        assert_eq!(typed, N::PosInt(u));
        assert_eq!(typed.to_json(&Vec::new()), Some(n));
    }
}

#[test]
fn every_negative_sample_round_trips() {
    for i in [-1i64, -2, -255, -65_536, -(1 << 53), i64::MIN + 1, i64::MIN] {
        let n = JsonNumber::from(i);
        let typed = N::classify(&n);
        assert_eq!(typed, N::NegInt(i));
        assert_eq!(typed.to_json(&Vec::new()), Some(n));
    }
}

#[test]
fn every_float_sample_round_trips_bit_for_bit() {
    for x in [0.0f64, -0.0, 0.1, -0.1, 1.0, 1.5, 3.14, 1.0e19, -1.0e19, f64::MIN_POSITIVE, f64::MAX, f64::MIN, 5.0e-324] {
        let n = float(x);
        let typed = N::classify(&n);
        assert_eq!(typed, N::Float(x.to_bits()));
        let back = typed.to_json(&vec![float(x)]).unwrap();
        assert_eq!(back.as_f64().unwrap().to_bits(), x.to_bits());
    }
}

#[test]
fn finite_floats_are_told_from_the_others_by_their_bits() {
    for x in [0.0f64, -0.0, 1.0, -1.0, 3.14, f64::MAX, f64::MIN, f64::MIN_POSITIVE, 5.0e-324] {
        assert!(is_finite(x.to_bits()));
    }
    for x in [f64::INFINITY, f64::NEG_INFINITY, f64::NAN, -f64::NAN] {
        assert!(!is_finite(x.to_bits()));
    }
    assert!(is_finite(0x7fef_ffff_ffff_ffff));
    assert!(!is_finite(0x7ff0_0000_0000_0000));
    assert!(!is_finite(0x7ff0_0000_0000_0001));
    assert!(!is_finite(u64::MAX));
}

#[test]
fn a_float_that_is_not_finite_gives_nothing_whatever_is_offered() {
    let pool = vec![float(1.0), JsonNumber::from(0x7ff0_0000_0000_0000u64)];
    assert_eq!(N::Float(0x7ff0_0000_0000_0000).to_json(&pool), None);
    assert_eq!(Number { n: N::Float(u64::MAX) }.to_json(&pool), None);
}
