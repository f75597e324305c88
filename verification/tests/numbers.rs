//! Bit patterns that stand for real values, and text.

use bobdil_kernel::scalar::{
    abs, ceil_to_count, clamp, is_at_most, is_finite, is_less, is_nan, is_negative, is_same,
    max_of, min_of, negate, round_to_count, signum, to_count, to_level,
};
use bobdil_kernel::text::{
    add_line, count_text, join, page_text, pad_left, pad_right, read_count, same_text, signed_text,
    word_text,
};


const SAMPLES: [f64; 16] = [
    0.0,
    -0.0,
    1.0,
    -1.0,
    0.5,
    -0.49999,
    2.5,
    1e-300,
    -1e300,
    5e-324,
    65535.5,
    1.8446744073709552e19,
    f64::INFINITY,
    f64::NEG_INFINITY,
    f64::NAN,
    32767.9,
];

#[test]
fn bit_patterns_order_as_their_values_do() {
    for a in SAMPLES {
        for b in SAMPLES {
            let (x, y) = (a.to_bits(), b.to_bits());
            assert_eq!(is_less(x, y), a < b, "{a} < {b}");
            assert_eq!(is_at_most(x, y), a <= b, "{a} <= {b}");
            assert_eq!(is_same(x, y), a == b, "{a} == {b}");
            let most = f64::from_bits(max_of(x, y));
            assert!(most == a.max(b) || (most.is_nan() && a.max(b).is_nan()));
            let least = f64::from_bits(min_of(x, y));
            assert!(least == a.min(b) || (least.is_nan() && a.min(b).is_nan()));
        }
    }
}

#[test]
fn bit_patterns_convert_as_their_values_do() {
    for a in SAMPLES {
        let x = a.to_bits();
        assert_eq!(is_nan(x), a.is_nan());
        assert_eq!(is_finite(x), a.is_finite());
        assert_eq!(is_negative(x), a.is_sign_negative());
        assert_eq!(negate(x), (-a).to_bits());
        assert_eq!(abs(x), a.abs().to_bits());
        assert_eq!(to_count(x), a as u64, "{a}");
        assert_eq!(round_to_count(x), a.round() as u64, "{a}");
        assert_eq!(ceil_to_count(x), a.ceil() as u64, "{a}");
        assert_eq!(to_level(x), a as i16, "{a}");
        if !a.is_nan() {
            assert_eq!(f64::from_bits(signum(x)), a.signum());
            let (low, high) = ((-2.0f64).to_bits(), 2.0f64.to_bits());
            assert_eq!(f64::from_bits(clamp(x, low, high)), a.clamp(-2.0, 2.0));
        }
    }
}

#[test]
fn numbers_are_spelled_as_usual() {
    assert_eq!(count_text(0), "0");
    assert_eq!(count_text(u64::MAX), u64::MAX.to_string());
    assert_eq!(signed_text(i32::MIN), i32::MIN.to_string());
    assert_eq!(signed_text(42), "42");
    assert_eq!(word_text(0xfeed_face), "0x00000000feedface");
    assert_eq!(read_count("0042", 100), Some(42));
    assert_eq!(read_count("+7", 100), Some(7));
    assert_eq!(read_count("101", 100), None);
    assert_eq!(read_count("", 100), None);
    assert_eq!(read_count("4x", 100), None);
}

#[test]
fn text_is_put_together() {
    let mut lines = Vec::new();
    add_line(&mut lines, "a".to_string());
    add_line(&mut lines, "bc".to_string());
    assert_eq!(join(&lines, ", "), "a, bc");
    assert_eq!(join(&Vec::new(), ", "), "");
    assert_eq!(page_text(&lines), "a\nbc\n");
    assert_eq!(pad_left("ab", 4), "  ab");
    assert_eq!(pad_right("ab", 4), "ab  ");
    assert_eq!(pad_left("abcde", 4), "abcde");
    assert!(same_text("abc", "abc"));
    assert!(!same_text("abc", "abd"));
}
