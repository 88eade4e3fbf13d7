use core_foundation::base::{CFError, CFRuntime, NUMBER_TYPE_ID, DATA_TYPE_ID};
use core_foundation::ieee::{f64_bits_to_i64, i64_to_f64_bits};
use core_foundation::data::CFData;
use core_foundation::number::{number, CFNumber};

#[test]
fn i64_round_trip_on_extremes() {
    let mut rt = CFRuntime::new();
    for v in [0i64, 1, -1, 42, i64::MIN, i64::MAX] {
        let n = number(&mut rt, v);
        assert_eq!(n.to_i64(&rt), Ok(v));
        assert_eq!(n.release(&mut rt), Ok(()));
    }
}

#[test]
fn from_i64_creates_a_live_number() {
    let mut rt = CFRuntime::new();
    let n = CFNumber::from_i64(&mut rt, -7).unwrap();
    let h = n.as_concrete_TypeRef();
    assert!(rt.is_live(h));
    assert_eq!(rt.retain_count(h), 1);
    assert_eq!(rt.type_of(h), Ok(NUMBER_TYPE_ID));
    assert_eq!(CFNumber::type_id(), NUMBER_TYPE_ID);
    assert_eq!(n.to_i64(&rt), Ok(-7));
}

#[test]
fn f64_round_trip_by_bit_pattern() {
    let mut rt = CFRuntime::new();
    for d in [0.0f64, -0.0, 1.5, -3.25e100, f64::MIN_POSITIVE, f64::INFINITY, f64::NEG_INFINITY] {
        let n = CFNumber::from_f64_bits(&mut rt, d.to_bits()).unwrap();
        let back = f64::from_bits(n.to_f64_bits(&rt).unwrap());
        assert_eq!(back, d);
        assert_eq!(back.to_bits(), d.to_bits());
    }
}

#[test]
fn u64_is_unsupported_whatever_the_value() {
    let mut rt = CFRuntime::new();
    let a = number(&mut rt, 5);
    let b = CFNumber::from_f64_bits(&mut rt, 2.5f64.to_bits()).unwrap();
    assert_eq!(a.to_u64(), Err(CFError::Unsupported));
    assert_eq!(b.to_u64(), Err(CFError::Unsupported));
    assert!(CFNumber::from_u64(5).is_none());
    assert!(CFNumber::from_u64(u64::MAX).is_none());
}

#[test]
fn integral_double_converts_to_i64() {
    let mut rt = CFRuntime::new();
    for (d, v) in [
        (2.0f64, 2i64),
        (-3.0, -3),
        (0.0, 0),
        (-0.0, 0),
        (4503599627370496.0, 4503599627370496),
        (9007199254740994.0, 9007199254740994),
        (1e18, 1_000_000_000_000_000_000),
        (-9223372036854775808.0, i64::MIN),
    ] {
        let n = CFNumber::from_f64_bits(&mut rt, d.to_bits()).unwrap();
        assert_eq!(n.to_i64(&rt), Ok(v));
    }
}

#[test]
fn inexact_double_fails_to_convert_to_i64() {
    let mut rt = CFRuntime::new();
    for d in [
        2.5f64,
        -0.5,
        f64::MIN_POSITIVE,
        5e-324,
        9223372036854775808.0,
        -9223372036854777856.0,
        1e300,
        f64::INFINITY,
        f64::NEG_INFINITY,
        f64::NAN,
    ] {
        let n = CFNumber::from_f64_bits(&mut rt, d.to_bits()).unwrap();
        assert_eq!(n.to_i64(&rt), Err(CFError::ConversionFailed));
    }
}

#[test]
fn exact_integer_converts_to_double() {
    let mut rt = CFRuntime::new();
    for v in [
        0i64,
        1,
        -1,
        3,
        1 << 52,
        (1 << 53) - 1,
        1 << 53,
        -(1 << 53),
        (1 << 53) + 2,
        1 << 62,
        i64::MIN,
        1_000_000_000_000_000_000,
    ] {
        let n = number(&mut rt, v);
        assert_eq!(n.to_f64_bits(&rt), Ok((v as f64).to_bits()));
    }
}

#[test]
fn inexact_integer_fails_to_convert_to_double() {
    let mut rt = CFRuntime::new();
    for v in [(1i64 << 53) + 1, -((1i64 << 53) + 1), i64::MAX, i64::MIN + 1, (1 << 62) + 1] {
        let n = number(&mut rt, v);
        assert_eq!(n.to_f64_bits(&rt), Err(CFError::ConversionFailed));
    }
}

#[test]
fn release_decrements_once_and_frees_last() {
    let mut rt = CFRuntime::new();
    let n = number(&mut rt, 9);
    let h = n.as_concrete_TypeRef();
    let m = n.retain(&mut rt).unwrap();
    assert_eq!(rt.retain_count(h), 2);
    assert_eq!(n.release(&mut rt), Ok(()));
    assert_eq!(rt.retain_count(h), 1);
    assert_eq!(m.to_i64(&rt), Ok(9));
    assert_eq!(m.release(&mut rt), Ok(()));
    assert_eq!(rt.retain_count(h), 0);
    assert!(!rt.is_live(h));
}

#[test]
fn shares_balance_out() {
    let mut rt = CFRuntime::new();
    let n = number(&mut rt, 11);
    let h = n.as_concrete_TypeRef();
    let mut shares = Vec::new();
    for _ in 0..5 {
        shares.push(CFNumber::wrap_under_get_rule(&mut rt, h).unwrap());
    }
    assert_eq!(rt.retain_count(h), 6);
    for s in shares {
        assert_eq!(s.release(&mut rt), Ok(()));
    }
    assert_eq!(rt.retain_count(h), 1);
    assert_eq!(n.to_i64(&rt), Ok(11));
}

#[test]
fn stale_handle_is_rejected() {
    let mut rt = CFRuntime::new();
    let n = number(&mut rt, 1);
    let h = n.as_concrete_TypeRef();
    let stale = n.retain(&mut rt).unwrap();
    assert_eq!(n.release(&mut rt), Ok(()));
    assert_eq!(stale.to_i64(&rt), Ok(1));
    assert_eq!(rt.release(h), Ok(()));
    assert_eq!(stale.to_i64(&rt), Err(CFError::Released));
    assert_eq!(stale.to_f64_bits(&rt), Err(CFError::Released));
    assert!(matches!(stale.retain(&mut rt), Err(CFError::Released)));
    assert_eq!(stale.release(&mut rt), Err(CFError::Released));
    assert!(matches!(CFNumber::wrap_under_get_rule(&mut rt, h), Err(CFError::Released)));
    assert_eq!(rt.type_of(h), Err(CFError::Released));
}

#[test]
fn wrapping_checks_the_type() {
    let mut rt = CFRuntime::new();
    let d = CFData::new_from_buf(&mut rt, &[1, 2, 3]);
    let h = d.as_type_ref();
    assert_eq!(rt.type_of(h), Ok(DATA_TYPE_ID));
    assert!(matches!(CFNumber::wrap_under_create_rule(&rt, h), Err(CFError::TypeMismatch)));
    assert!(matches!(CFNumber::wrap_under_get_rule(&mut rt, h), Err(CFError::TypeMismatch)));
    assert_eq!(rt.retain_count(h), 1);
    assert_eq!(rt.check_type(h, NUMBER_TYPE_ID), Err(CFError::TypeMismatch));
    assert_eq!(rt.check_type(h, DATA_TYPE_ID), Ok(()));
}

#[test]
fn unknown_handle_is_released() {
    let mut rt = CFRuntime::new();
    let n = number(&mut rt, 1);
    let mut h = n.as_concrete_TypeRef();
    h.index += 10;
    assert!(matches!(CFNumber::wrap_under_get_rule(&mut rt, h), Err(CFError::Released)));
    assert_eq!(rt.retain(h), Err(CFError::Released));
    assert_eq!(rt.release(h), Err(CFError::Released));
    assert_eq!(rt.number_value(h), Err(CFError::Released));
}

#[test]
fn bit_pattern_conversions_agree_with_casts() {
    for v in [0i64, 7, -7, 1 << 40, -(1 << 60), i64::MIN, 123_456_789_012] {
        let b = i64_to_f64_bits(v).unwrap();
        assert_eq!(b, (v as f64).to_bits());
        assert_eq!(f64_bits_to_i64(b), Some(v));
    }
    assert_eq!(i64_to_f64_bits(i64::MAX), None);
    assert_eq!(f64_bits_to_i64(0.75f64.to_bits()), None);
    assert_eq!(f64_bits_to_i64((-1024.0f64).to_bits()), Some(-1024));
}
