//! Numbers, text, waits, and the crash picture.
use tiny_dfr::crash::crash_pixels;
use tiny_dfr::moment::{wait_left, Moment};
use tiny_dfr::scalar::Scalar;
use tiny_dfr::text;

fn scalar(x: f64) -> Scalar {
    Scalar::from_bits(x.to_bits())
}

const SAMPLES: [f64; 16] = [
    0.0,
    -0.0,
    1.0,
    -1.0,
    0.5,
    2008.0,
    -17.25,
    1e-310,
    -1e-310,
    f64::MAX,
    f64::MIN,
    f64::INFINITY,
    f64::NEG_INFINITY,
    f64::NAN,
    5e-324,
    1.0000000000000002,
];

#[test]
fn scalars_order_like_floats() {
    for a in SAMPLES {
        for b in SAMPLES {
            assert_eq!(scalar(a).lt(scalar(b)), a < b, "{a} < {b}");
            assert_eq!(scalar(a).same_as(scalar(b)), a == b, "{a} == {b}");
        }
        assert_eq!(scalar(a).is_nan(), a.is_nan());
        assert_eq!(scalar(a).is_finite(), a.is_finite());
        assert_eq!(scalar(a).abs().bits, a.abs().to_bits());
        assert_eq!(scalar(a).negate().bits, (-a).to_bits());
        assert_eq!(
            scalar(a).clamp(scalar(-2.0), scalar(3.0)).bits,
            a.clamp(-2.0, 3.0).to_bits()
        );
    }
}

#[test]
fn whole_numbers_convert_exactly() {
    let mut n: i64 = 1;
    while n <= i32::MAX as i64 {
        for m in [n - 1, n, n + 1] {
            if m <= i32::MAX as i64 {
                assert_eq!(Scalar::from_whole(m as i32).bits, (m as f64).to_bits());
                assert_eq!(Scalar::from_whole(-(m as i32)).bits, (if m == 0 { 0.0 } else { -(m as f64) }).to_bits());
            }
        }
        n = n * 3;
    }
    assert_eq!(Scalar::from_whole(i32::MIN).bits, (i32::MIN as f64).to_bits());
    assert_eq!(Scalar::from_whole(0).bits, 0);
}

#[test]
fn ten_thousandths_round_to_the_nearest() {
    for i in 0..5000 {
        let x = i as f64 / 4999.0;
        let text = format!("{x:.4}").replace('.', "");
        assert_eq!(scalar(x).ten_thousandths(), text.parse::<u32>().unwrap());
    }
}

#[test]
fn white_space_and_control_characters_are_those_of_unicode() {
    for c in '\0'..=char::MAX {
        assert_eq!(text::is_white_space(c), c.is_whitespace(), "{c:?}");
        assert_eq!(text::is_control(c), c.is_control(), "{c:?}");
    }
}

#[test]
fn numbers_read_and_print_like_those_of_the_language() {
    for s in ["", "0", "17777", "+5", "-1", "4294967295", "4294967296", "1x", "+", " 1", "007"] {
        let chars: Vec<char> = s.chars().collect();
        assert_eq!(text::parse_u32(&chars, 0, chars.len()), s.parse::<u32>().ok(), "{s:?}");
    }
    for n in [0u64, 9, 10, 999, 1000, u64::MAX] {
        assert_eq!(text::decimal(n), n.to_string());
    }
}

#[test]
fn waits_are_at_least_one_millisecond() {
    let start = Moment { nanos: 500 };
    assert_eq!(wait_left(50_000_000, start, start), 50);
    assert_eq!(wait_left(50_000_000, Moment { nanos: 49_900_500 }, start), 1);
    assert_eq!(wait_left(50_000_000, Moment { nanos: 900_000_000 }, start), 1);
    assert_eq!(Moment { nanos: 3 }.since(start), 0);
}

#[test]
fn crash_pictures_are_white_where_bits_are_clear() {
    let pixels = crash_pixels(&[0b0000_0101, 0xff]);
    assert_eq!(pixels.len(), 64);
    assert_eq!(&pixels[0..4], &[0, 0, 0, 0]);
    assert_eq!(&pixels[4..8], &[255, 255, 255, 255]);
    assert_eq!(&pixels[8..12], &[0, 0, 0, 0]);
    assert_eq!(&pixels[12..32], &[255; 20]);
    assert_eq!(&pixels[32..64], &[0; 32]);
    assert!(crash_pixels(&[]).is_empty());
}
