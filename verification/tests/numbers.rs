//! Numbers, bytes and text.

use liquid_metal::bytes::{put_all, put_u16, put_u32, put_u64, read_u16, read_u32, read_u64};
use liquid_metal::options::{parse_number, peer_complaint};
use liquid_metal::single::Single;
use liquid_metal::text::{
    decimal_text, find, push_hex, push_left, push_prefixed_hex, push_right, same_text, signed_text,
    to_lower, trim,
};

fn single(x: f32) -> Single {
    Single { bits: x.to_bits() }
}

fn some_floats() -> Vec<f32> {
    vec![
        f32::NEG_INFINITY,
        f32::MIN,
        -1.5,
        -1.0,
        -f32::MIN_POSITIVE,
        -1e-45,
        -0.0,
        0.0,
        1e-45,
        1.1754942e-38,
        f32::MIN_POSITIVE,
        0.1,
        0.99999994,
        1.0,
        1.0000001,
        2.0,
        1e10,
        f32::MAX,
        f32::INFINITY,
        f32::NAN,
        -f32::NAN,
    ]
}

#[test]
fn comparisons_agree_with_the_machine() {
    for a in some_floats() {
        assert_eq!(single(a).is_finite(), a.is_finite());
        assert_eq!(single(a).neg().bits, (-a).to_bits());
        for b in some_floats() {
            assert_eq!(single(a).lt(single(b)), a < b, "{a} < {b}");
            assert_eq!(single(a).le(single(b)), a <= b, "{a} <= {b}");
            assert_eq!(single(a).same(single(b)), a == b, "{a} == {b}");
            assert_eq!(single(a).after(single(b)), a.total_cmp(&b).is_gt(), "{a} after {b}");
            if !(a.is_nan() || b.is_nan()) && a != b {
                assert_eq!(single(a).min(single(b)).bits, a.min(b).to_bits());
                assert_eq!(single(a).max(single(b)).bits, a.max(b).to_bits());
            }
        }
    }
    assert_eq!(single(f32::NAN).min(single(2.0)), single(2.0));
    assert_eq!(single(2.0).max(single(f32::NAN)), single(2.0));
}

#[test]
fn a_fraction_is_kept_within_one() {
    for (x, want) in [(-3.0f32, 0.0f32), (-0.0, -0.0), (0.0, 0.0), (0.25, 0.25), (1.0, 1.0), (9.0, 1.0)]
    {
        assert_eq!(single(x).clamp_unit(), single(want), "{x}");
    }
}

#[test]
fn numbers_go_out_low_byte_first() {
    let mut b = Vec::new();
    put_u16(&mut b, 0x0102);
    put_u32(&mut b, 0x0304_0506);
    put_u64(&mut b, 0x0708_090a_0b0c_0d0e);
    put_all(&mut b, &[0xff, 0xee]);
    assert_eq!(b, [2, 1, 6, 5, 4, 3, 14, 13, 12, 11, 10, 9, 8, 7, 0xff, 0xee]);
    assert_eq!(read_u16(&b[0..2]), 0x0102);
    assert_eq!(read_u32(&b[2..6]), 0x0304_0506);
    assert_eq!(read_u64(&b[6..14]), 0x0708_090a_0b0c_0d0e);
}

#[test]
fn numbers_are_written_out() {
    for n in [0u64, 7, 10, 99, 1234567890, u64::MAX] {
        assert_eq!(decimal_text(n), n.to_string());
        let mut s = String::new();
        push_hex(&mut s, n);
        assert_eq!(s, format!("{n:x}"));
        let mut s = String::new();
        push_prefixed_hex(&mut s, n, 8);
        assert_eq!(s, format!("{n:#010x}"));
    }
    for n in [0i32, -1, 1, i32::MIN, i32::MAX] {
        assert_eq!(signed_text(n), n.to_string());
    }
    let mut s = String::new();
    push_right(&mut s, "ab", 4);
    push_left(&mut s, "cd", 4);
    push_right(&mut s, "longer", 4);
    assert_eq!(s, "  abcd  longer");
}

#[test]
fn text_is_trimmed_and_searched() {
    for t in ["", " ", "a", " a ", "\t\n a b\u{a0}\u{2003}", "\u{200b}x"] {
        assert_eq!(trim(t), t.trim());
    }
    assert_eq!(to_lower("LEFT ÄÖ"), "LEFT ÄÖ".to_ascii_lowercase());
    assert_eq!(find("a=b=c", '='), Some(1));
    assert_eq!(find("é=b", '='), Some(1));
    assert_eq!(find("abc", '='), None);
    assert!(same_text("x11", "x11") && !same_text("x11", "x1"));
}

#[test]
fn numbers_are_read_as_the_standard_library_reads_them() {
    for t in ["0", "7", "+7", "007", "18446744073709551615", "18446744073709551616", "", "+", "-1", "1 ", "1e3"] {
        assert_eq!(parse_number(t), t.parse::<u64>().ok(), "{t:?}");
    }
}

#[test]
fn a_complaint_quotes_what_was_given() {
    assert_eq!(
        peer_complaint("a\"b\n", "no host given"),
        "--peer \"a\\\"b\\n\" is not usable: no host given"
    );
}
