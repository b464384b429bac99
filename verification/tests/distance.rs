use path_tracer::distance::order_key;

fn key(t: f32) -> Option<i64> {
    order_key(t.to_bits())
}

#[test]
fn both_zeros_have_key_zero() {
    assert_eq!(key(0.0), Some(0));
    assert_eq!(key(-0.0), Some(0));
}

#[test]
fn keys_of_known_encodings() {
    assert_eq!(order_key(0x3f80_0000), Some(0x3f80_0000)); // 1
    assert_eq!(order_key(0xbf80_0000), Some(-0x3f80_0000)); // -1
    assert_eq!(order_key(0x0000_0001), Some(1)); // least positive
    assert_eq!(order_key(0x8000_0001), Some(-1));
    assert_eq!(order_key(0x7f7f_ffff), Some(0x7f7f_ffff)); // greatest finite
    assert_eq!(order_key(0x7f80_0000), Some(0x7f80_0000)); // infinity
    assert_eq!(order_key(0xff80_0000), Some(-0x7f80_0000));
}

#[test]
fn what_is_not_a_number_has_no_key() {
    assert_eq!(key(f32::NAN), None);
    assert_eq!(key(-f32::NAN), None);
    assert_eq!(key((-1.0f32).sqrt()), None);
    assert_eq!(order_key(0x7f80_0001), None);
    assert_eq!(order_key(0x7fff_ffff), None);
    assert_eq!(order_key(0xff80_0001), None);
    assert_eq!(order_key(0xffff_ffff), None);
}

#[test]
fn keys_compare_as_the_numbers_do() {
    let numbers = [
        f32::NEG_INFINITY,
        f32::MIN,
        -1.0e6,
        -100.5,
        -1.0,
        -0.5,
        -1.0e-4,
        -f32::MIN_POSITIVE,
        -1.0e-45,
        -0.0,
        0.0,
        1.0e-45,
        f32::MIN_POSITIVE,
        1.0e-4,
        0.1,
        0.5,
        0.999_999_94,
        1.0,
        1.000_000_1,
        2.0,
        100.0,
        1.0e6,
        f32::MAX,
        f32::INFINITY,
    ];
    for a in numbers {
        for b in numbers {
            let (ka, kb) = (key(a).unwrap(), key(b).unwrap());
            assert_eq!(a < b, ka < kb, "{} < {}", a, b);
            assert_eq!(a == b, ka == kb, "{} == {}", a, b);
            assert_eq!(a > b, ka > kb, "{} > {}", a, b);
        }
    }
}

#[test]
fn keys_are_odd_in_the_sign() {
    for t in [0.0f32, 1.0e-4, 0.3, 1.0, 7.25, 1.0e6, f32::INFINITY] {
        assert_eq!(key(-t), key(t).map(|k| -k));
    }
}
