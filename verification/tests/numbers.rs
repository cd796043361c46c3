use clip_extractor::fixed::{distance, fixed_text, span_text, Fraction};
use clip_extractor::number::{parse_percentage, parse_u64};

#[test]
fn seconds_with_decimals() {
    assert_eq!(fixed_text(4_800_000_000, 1), "4.8");
    assert_eq!(fixed_text(8_000_000_000, 1), "8.0");
    assert_eq!(fixed_text(4_800_000_000, 3), "4.800");
    assert_eq!(fixed_text(12_345_678_901, 3), "12.346");
    assert_eq!(fixed_text(-40_000_000, 1), "-0.0");
    assert_eq!(fixed_text(999_950_000, 1), "1.0");
    let least = (i128::MIN as f64 / 1e9) as f32;
    assert_eq!(fixed_text(i128::MIN, 0), format!("{least:.0}"));
    assert_eq!(fixed_text(i128::MIN, 8), format!("{least:.8}"));
    assert_eq!(fixed_text(12, 8), "0.00000001");
    assert_eq!(fixed_text(0, 0), "0");
}

#[test]
fn times_are_written_in_single_precision() {
    assert_eq!(fixed_text(350_000_000, 1), "0.3");
    assert_eq!(fixed_text(850_000_000, 1), "0.9");
    let mut centis: i64 = 0;
    while centis < 400_000 {
        let n: i128 = i128::from(centis) * 10_000_000;
        let x: f32 = centis as f32 / 100.0;
        assert_eq!(fixed_text(n, 1), format!("{x:.1}"));
        assert_eq!(fixed_text(n, 2), format!("{x:.2}"));
        assert_eq!(fixed_text(n, 3), format!("{x:.3}"));
        centis += 7;
    }
    for seconds in [16_777_216u64, 16_777_217, 16_777_219, 50_331_651, 123_456_789_012] {
        let x: f32 = seconds as f32;
        assert_eq!(fixed_text(i128::from(seconds) * 1_000_000_000, 1), format!("{x:.1}"));
    }
}

#[test]
fn rounding_as_for_floats_that_are_exact() {
    let mut k: i128 = -4096;
    while k <= 4096 {
        let n: i128 = k * 7_812_500;
        let x: f64 = k as f64 / 128.0;
        if k != 0 {
            assert_eq!(fixed_text(n, 1), format!("{x:.1}"));
            assert_eq!(fixed_text(n, 2), format!("{x:.2}"));
            assert_eq!(fixed_text(n, 3), format!("{x:.3}"));
            assert_eq!(fixed_text(n, 0), format!("{x:.0}"));
        }
        k += 1;
    }
}

#[test]
fn spans_and_distances() {
    assert_eq!(span_text(1_000_000_000, 3_500_000_000, 2), "2.50");
    assert_eq!(span_text(3, 1, 2), "0.00");
    let most = ((u128::MAX as f64) / 1e9) as f32;
    assert_eq!(span_text(i128::MIN, i128::MAX, 8), format!("{most:.8}"));
    assert_eq!(distance(i128::MIN, i128::MAX), u128::MAX);
    assert_eq!(distance(5, -3), 8);
    assert_eq!(distance(-5, -3), 2);
}

#[test]
fn shares_of_a_whole() {
    assert_eq!(Fraction::of(1, 3).billionths, 333_333_333);
    assert_eq!(Fraction::of(3, 3).billionths, 1_000_000_000);
    assert_eq!(Fraction::of(u64::MAX, 1).billionths, 1_000_000_000);
    assert_eq!(Fraction::of(0, 1).billionths, 0);
    assert_eq!(Fraction::none().billionths, 0);
}

#[test]
fn whole_numbers_as_in_std() {
    for s in [
        "", "0", "+7", "-7", "+", "18446744073709551615", "18446744073709551616", "00012", "1 ", "x",
        "99999999999999999999999999999999999999999999", "12a",
    ] {
        assert_eq!(parse_u64(s), s.parse::<u64>().ok(), "{s:?}");
    }
}

#[test]
fn percentages_as_in_std() {
    for s in [
        "0", "0.0", "45.6", "100", "100.0", "101", "1e1", "1E+1", "1e-1", "-5", "+5", ".5", "5.", ".", "",
        "e5", "5e", "5e+", "1.2.3", "inf", "-inf", "Infinity", "+INF", "infinit", "1e400", "1e-400",
        "0e99999999999999999999999999999999999999", "1e99999999999999999999999999999999999999",
        "1e-99999999999999999999999999999999999999", "00012.50", "~45", "12,5", "0.0000001", "99.99999",
        "1e1e1", "--1", "3e0.5",
    ] {
        let expected = s.parse::<f32>().ok().map(|p| (p / 100.0).clamp(0.0, 1.0));
        let got = parse_percentage(s).map(|f| f.billionths as f32 / 1e9);
        match (expected, got) {
            (Some(a), Some(b)) => assert!((a - b).abs() < 1e-6, "{s:?}: {a} {b}"),
            (None, None) => {}
            _ => panic!("{s:?}: {expected:?} {got:?}"),
        }
    }
    assert_eq!(parse_percentage("45.6").unwrap().billionths, 456_000_000);
    assert_eq!(parse_percentage("1e1").unwrap().billionths, 100_000_000);
    assert_eq!(parse_percentage("0.00000019").unwrap().billionths, 1);
    assert!(parse_percentage("nan").is_none());
}
