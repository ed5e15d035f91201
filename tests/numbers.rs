use vec2check::decimal::Decimal;
use vec2check::range::{RangeError, RangeThreshold};
use vec2check::sample::Sample;

fn dec(text: &str) -> Decimal {
    Decimal::from_text(text).unwrap()
}

fn sample(text: &str) -> Sample {
    Sample::from_text(text).unwrap()
}

#[test]
fn truncation_renders_integers_plainly() {
    assert_eq!(dec("5.0").truncate_to_string(2), "5");
    assert_eq!(dec("5.5645654654654").truncate_to_string(2), "5.56");
    assert_eq!(dec("5.5645654654654").truncate_to_string(4), "5.5646");
    assert_eq!(dec("5.0").truncate_to_string(4), "5");
    assert_eq!(dec("1200").truncate_to_string(2), "1200");
    assert_eq!(dec("-0.004").truncate_to_string(2), "-0.00");
}

#[test]
fn fixed_rounds_half_to_even() {
    assert_eq!(dec("0.125").to_fixed_string(2), "0.12");
    assert_eq!(dec("0.135").to_fixed_string(2), "0.14");
    assert_eq!(dec("2.5").to_fixed_string(0), "2");
    assert_eq!(dec("0").to_fixed_string(2), "0.00");
    assert_eq!(dec("99.999").to_fixed_string(2), "100.00");
    assert_eq!(dec("0.0000000000000000000000001").to_fixed_string(3), "0.000");
}

#[test]
fn plain_text_has_no_exponent_and_no_trailing_zeros() {
    assert_eq!(dec("20.50").to_plain_string(), "20.5");
    assert_eq!(dec("-0.00012").to_plain_string(), "-0.00012");
    assert_eq!(dec("100000000000000000000").to_plain_string(), "100000000000000000000");
    assert_eq!(Decimal::new(15, 3).to_plain_string(), "15000");
    assert_eq!(Decimal::new(-15, -1).to_plain_string(), "-1.5");
    assert_eq!(format!("{}", 5.1238712f64), dec("5.1238712").to_plain_string());
}

#[test]
fn special_samples_render_like_floats() {
    for v in [f64::INFINITY, f64::NEG_INFINITY, f64::NAN] {
        let s = Sample::from_text(&format!("{}", v)).unwrap();
        assert_eq!(s.to_plain_string(), format!("{}", v));
        assert_eq!(s.truncate_to_string(2), format!("{:.2}", v));
    }
    assert_eq!(sample("5.0").truncate_to_string(2), "5");
    assert_eq!(sample("5.5645654654654").truncate_to_string(4), "5.5646");
    assert_eq!(Sample::from_text("nan"), None);
}

#[test]
fn decimal_text_is_validated() {
    assert_eq!(Decimal::from_text("+7"), Some(Decimal::new(7, 0)));
    assert_eq!(Decimal::from_text(".5"), Some(Decimal::new(5, -1)));
    assert_eq!(Decimal::from_text("5."), Some(Decimal::new(5, 0)));
    assert_eq!(Decimal::from_text("-0"), Some(Decimal::new(0, 0)));
    assert_eq!(Decimal::from_text(""), None);
    assert_eq!(Decimal::from_text("."), None);
    assert_eq!(Decimal::from_text("1.2.3"), None);
    assert_eq!(Decimal::from_text("inf"), None);
    assert_eq!(Decimal::from_text("1234567890123456789"), None);
    assert_eq!(Decimal::from_text("1234567890123456780000"), Some(Decimal::new(123456789012345678, 4)));
}

#[test]
fn comparisons_follow_the_values() {
    assert!(dec("10").le(&dec("10.0")));
    assert!(!dec("10").lt(&dec("10.00")));
    assert!(dec("-3").lt(&dec("0.001")));
    assert!(dec("0.5").lt(&Decimal::new(1, 30)));
    assert!(Decimal::new(-1, 30).lt(&dec("-999")));
}

#[test]
fn ranges_parse_and_display() {
    assert_eq!(RangeThreshold::parse("@10:20").unwrap().to_text(), "@10:20");
    assert_eq!(RangeThreshold::parse("@10").unwrap().to_text(), "@0:10");
    assert_eq!(RangeThreshold::parse("10").unwrap().to_text(), "0:10");
    assert_eq!(RangeThreshold::parse("@10:").unwrap().to_text(), "@10:~");
    assert_eq!(RangeThreshold::parse("~:5").unwrap().to_text(), "~:5");
    assert_eq!(RangeThreshold::parse("5:~").unwrap().to_text(), "5:~");
    assert_eq!(RangeThreshold::parse(":7").unwrap().to_text(), "0:7");
    assert_eq!(RangeThreshold::parse("-2.50:-1").unwrap().to_text(), "-2.5:-1");
}

#[test]
fn range_display_reads_back() {
    for text in ["@10:20", "10", "@10:", "~:5", ":7", "-2.50:-1", "@0.000001:1000000"] {
        let r = RangeThreshold::parse(text).unwrap();
        assert_eq!(RangeThreshold::parse(&r.to_text()), Ok(r));
    }
}

#[test]
fn ranges_reject_bad_text() {
    assert_eq!(RangeThreshold::parse(""), Err(RangeError::Empty));
    assert_eq!(RangeThreshold::parse("x:5"), Err(RangeError::InvalidStart));
    assert_eq!(RangeThreshold::parse("5:x"), Err(RangeError::InvalidEnd));
    assert_eq!(RangeThreshold::parse("abc"), Err(RangeError::InvalidEnd));
    assert_eq!(RangeThreshold::parse("20:10"), Err(RangeError::StartGreaterThanEnd));
    assert_eq!(RangeThreshold::parse("-5"), Err(RangeError::StartGreaterThanEnd));
    assert_eq!(RangeThreshold::parse("@"), Err(RangeError::InvalidEnd));
}

#[test]
fn ranges_fire_inside_or_outside() {
    let inside = RangeThreshold::parse("@10:20").unwrap();
    let outside = RangeThreshold::parse("10:20").unwrap();
    for (v, within) in [("9.99", false), ("10", true), ("15", true), ("20", true), ("20.01", false)] {
        assert_eq!(inside.evaluate(&sample(v)), within);
        assert_eq!(outside.evaluate(&sample(v)), !within);
    }
    let unbounded = RangeThreshold::parse("~:").unwrap();
    assert!(!unbounded.evaluate(&sample("-1000000")));
    assert!(!unbounded.evaluate(&sample("inf")));
    assert!(!unbounded.evaluate(&sample("-inf")));
    assert!(!inside.evaluate(&sample("NaN")));
    assert!(!outside.evaluate(&sample("NaN")));
    assert!(outside.evaluate(&sample("inf")));
    assert!(outside.evaluate(&sample("-inf")));
    assert!(!inside.evaluate(&sample("inf")));
}

#[test]
fn ranges_agree_with_nagios_range() {
    for text in ["@10:20", "10", "@10", "~:5", "5:", "-3:3", "@0.5:0.75"] {
        let ours = RangeThreshold::parse(text).unwrap();
        let theirs = nagios_range::NagiosRange::from(text).unwrap();
        for v in [
            -10.0,
            -3.0,
            0.0,
            0.5,
            0.6,
            0.75,
            3.0,
            5.0,
            10.0,
            15.0,
            20.0,
            25.0,
            f64::INFINITY,
            f64::NEG_INFINITY,
            f64::NAN,
        ] {
            assert_eq!(
                ours.evaluate(&Sample::from_text(&format!("{}", v)).unwrap()),
                theirs.check(v),
                "{} at {}",
                text,
                v
            );
        }
        assert_eq!(ours.to_text(), theirs.to_string());
    }
}
