use ordered_maps::lexical::compare_bytes;
use ordered_maps::order::{Comparison, OrderedKey};
use ordered_maps::ordered::OrderedFloat;
use std::cmp::Ordering;

fn of(x: f64) -> OrderedFloat {
    OrderedFloat::from_bits(x.to_bits())
}

#[test]
fn test_ordered_float() {
    assert_eq!(of(f64::NAN).cmp(&of(f64::MAX)), Ordering::Greater);
    assert_eq!(of(f64::MAX).cmp(&of(f64::NAN)), Ordering::Less);
    assert_eq!(of(f64::NAN).cmp(&of(f64::INFINITY)), Ordering::Less);
    assert_eq!(of(f64::NAN).cmp(&of(f64::NAN)), Ordering::Greater);
}

#[test]
fn nan_is_less_than_either_infinity_and_they_are_less_than_it() {
    assert_eq!(of(f64::NAN).cmp(&of(f64::NEG_INFINITY)), Ordering::Less);
    assert_eq!(of(f64::NAN).cmp(&of(f64::INFINITY)), Ordering::Less);
    assert_eq!(of(f64::INFINITY).cmp(&of(f64::NAN)), Ordering::Less);
    assert_eq!(of(f64::NEG_INFINITY).cmp(&of(f64::NAN)), Ordering::Less);
}

#[test]
fn every_nan_pattern_is_treated_as_nan() {
    let quiet = OrderedFloat::from_bits(0x7ff8_0000_0000_0000);
    let signalling = OrderedFloat::from_bits(0x7ff0_0000_0000_0001);
    let negative = OrderedFloat::from_bits(0xfff8_0000_0000_0000);
    for nan in [quiet, signalling, negative] {
        assert!(nan.is_nan());
        assert!(!nan.is_infinite());
        assert_eq!(nan.cmp(&of(0.0)), Ordering::Greater);
        assert_eq!(of(0.0).cmp(&nan), Ordering::Less);
        assert_eq!(nan.cmp(&quiet), Ordering::Greater);
    }
}

#[test]
fn classification_agrees_with_the_float_type() {
    let samples = [
        0.0,
        -0.0,
        1.0,
        -1.0,
        f64::MIN_POSITIVE,
        f64::MAX,
        f64::MIN,
        f64::INFINITY,
        f64::NEG_INFINITY,
        f64::NAN,
        5e-324,
        -5e-324,
    ];
    for x in samples {
        assert_eq!(of(x).is_nan(), x.is_nan());
        assert_eq!(of(x).is_infinite(), x.is_infinite());
        assert_eq!(of(x).to_bits(), x.to_bits());
    }
}

#[test]
fn numbers_compare_by_value() {
    let samples = [
        f64::NEG_INFINITY,
        f64::MIN,
        -1.5e300,
        -2.0,
        -1.0,
        -f64::MIN_POSITIVE,
        -5e-324,
        -0.0,
        0.0,
        5e-324,
        f64::MIN_POSITIVE,
        0.5,
        1.0,
        1.0000000000000002,
        2.0,
        1.5e300,
        f64::MAX,
        f64::INFINITY,
    ];
    for a in samples {
        for b in samples {
            assert_eq!(of(a).cmp(&of(b)), a.partial_cmp(&b).unwrap(), "{} vs {}", a, b);
        }
    }
}

#[test]
fn the_two_zeros_are_equal() {
    assert_eq!(of(0.0).cmp(&of(-0.0)), Ordering::Equal);
    assert_eq!(of(-0.0).cmp(&of(0.0)), Ordering::Equal);
}

#[test]
fn nan_ordering_scenario() {
    let order = [f64::NEG_INFINITY, 1.0, f64::NAN, f64::INFINITY];
    for pair in order.windows(2) {
        assert_eq!(of(pair[0]).cmp(&of(pair[1])), Ordering::Less);
    }
    // Keys placed one after another, each before the first key that it is
    // less than, end in this order when the infinities are not met first.
    let mut placed: Vec<f64> = Vec::new();
    for key in [1.0, f64::INFINITY, f64::NAN, f64::NEG_INFINITY] {
        let mut at = placed.len();
        for (i, held) in placed.iter().enumerate() {
            if of(key).cmp(&of(*held)) == Ordering::Less {
                at = i;
                break;
            }
        }
        placed.insert(at, key);
    }
    assert_eq!(placed[0], f64::NEG_INFINITY);
    assert_eq!(placed[1], 1.0);
    assert!(placed[2].is_nan());
    assert_eq!(placed[3], f64::INFINITY);
}

#[test]
fn compare_bytes_exact_results() {
    assert_eq!(compare_bytes(b"", b""), Comparison::Equal);
    assert_eq!(compare_bytes(b"", b"a"), Comparison::Less);
    assert_eq!(compare_bytes(b"a", b""), Comparison::Greater);
    assert_eq!(compare_bytes(b"abc", b"abd"), Comparison::Less);
    assert_eq!(compare_bytes(b"abd", b"abc"), Comparison::Greater);
    assert_eq!(compare_bytes(b"ab", b"abc"), Comparison::Less);
    assert_eq!(compare_bytes(b"abc", b"ab"), Comparison::Greater);
    assert_eq!(compare_bytes(b"abc", b"abc"), Comparison::Equal);
    assert_eq!(compare_bytes(&[255], &[0, 0, 0]), Comparison::Greater);
    assert_eq!(compare_bytes(&[127], &[128]), Comparison::Less);
}

#[test]
fn compare_bytes_agrees_with_slice_order() {
    let samples: Vec<Vec<u8>> = vec![
        vec![],
        vec![0],
        vec![0, 0],
        vec![0, 1],
        vec![1],
        vec![1, 0],
        vec![200, 3],
        vec![255],
        vec![255, 255],
    ];
    for a in &samples {
        for b in &samples {
            let expected = match a.cmp(b) {
                Ordering::Less => Comparison::Less,
                Ordering::Equal => Comparison::Equal,
                Ordering::Greater => Comparison::Greater,
            };
            assert_eq!(compare_bytes(a, b), expected);
            assert_eq!(a.compare(b), expected);
        }
    }
}

#[test]
fn integer_compare_exact_results() {
    assert_eq!(1i64.compare(&2), Comparison::Less);
    assert_eq!(2i64.compare(&1), Comparison::Greater);
    assert_eq!(2i64.compare(&2), Comparison::Equal);
    assert_eq!(i64::MIN.compare(&i64::MAX), Comparison::Less);
    assert_eq!((-1i64).compare(&0), Comparison::Less);
    assert_eq!(5i64.duplicate(), 5);
}

#[test]
fn string_compare_agrees_with_string_order() {
    let samples = [
        "", "a", "A", "ab", "b", "z", "\u{e9}", "\u{7ff}", "\u{800}", "\u{ffff}", "\u{10000}",
        "\u{10ffff}", "a\u{e9}", "zz",
    ];
    for a in samples {
        for b in samples {
            let expected = match a.cmp(b) {
                Ordering::Less => Comparison::Less,
                Ordering::Equal => Comparison::Equal,
                Ordering::Greater => Comparison::Greater,
            };
            assert_eq!(a.to_string().compare(&b.to_string()), expected, "{:?} vs {:?}", a, b);
        }
    }
}

#[test]
fn duplicate_gives_an_equal_key() {
    assert_eq!("key".to_string().duplicate(), "key".to_string());
    assert_eq!(vec![1u8, 2, 3].duplicate(), vec![1u8, 2, 3]);
    assert_eq!(Vec::<u8>::new().duplicate(), Vec::<u8>::new());
}
