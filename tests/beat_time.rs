use mtxt::beat_time::BeatTime;
use mtxt::decimal::FixedDecimal;

fn parse(s: &str) -> BeatTime {
    s.parse::<BeatTime>().unwrap()
}

fn dec(s: &str) -> FixedDecimal {
    FixedDecimal::parse(s).unwrap()
}

#[test]
fn test_parsing() {
    let time: BeatTime = "4.123".parse().unwrap();
    assert_eq!(time.repr_beat(), 4);
    assert_eq!(time.repr_frac(), 528280977);
    assert_eq!(time.to_text(), "4.123");

    assert_eq!(parse("0").to_text(), "0.0");
    assert_eq!(parse("0.").to_text(), "0.0");
    assert_eq!(parse("0.0").to_text(), "0.0");
    assert_eq!(parse("0.000").to_text(), "0.0");
    assert_eq!(parse(" 7.25 ").to_text(), "7.25");
    assert_eq!(parse("0.99999").to_text(), "0.99999");
    assert_eq!(parse("0.9999999999").to_text(), "1.0");
    assert_eq!(parse("4294967295.99999").to_text(), "4294967295.99999");

    assert_eq!(parse("0.123456").to_text(), "0.12346");
    assert_eq!(parse("0.123454").to_text(), "0.12345");
}

#[test]
fn test_parse_error() {
    assert!("".parse::<BeatTime>().is_err());
    assert!("-0".parse::<BeatTime>().is_err());
    assert!("0x5".parse::<BeatTime>().is_err());
    assert!("-1.2".parse::<BeatTime>().is_err());
    assert!("2.3.4".parse::<BeatTime>().is_err());
    assert!("2.e5".parse::<BeatTime>().is_err());
    assert!("a".parse::<BeatTime>().is_err());
    assert!("4.9a".parse::<BeatTime>().is_err());
    assert!("1. 2".parse::<BeatTime>().is_err());
    assert!("1,2".parse::<BeatTime>().is_err());
    assert!("2.-3".parse::<BeatTime>().is_err());
}

#[test]
fn test_op() {
    let time: BeatTime = "4.123".parse().unwrap();
    let other: BeatTime = "1.234".parse().unwrap();
    let sum = time.add(other);
    assert_eq!(sum.to_text(), "5.357");

    let diff = time.sub(other);
    assert_eq!(diff.to_text(), "2.889");

    let overflow: BeatTime = "0.9".parse().unwrap();
    let sum = time.add(overflow);
    assert_eq!(sum.to_text(), "5.023");
}

#[test]
fn beat_time_test_quantize() {
    let zero = FixedDecimal::zero();
    let time = parse("0.12");
    assert_eq!(time.quantize(4, zero, zero, 0).to_text(), "0.0");

    let time = parse("0.13");
    assert_eq!(time.quantize(4, zero, zero, 0).to_text(), "0.25");

    let time = parse("0.49");
    assert_eq!(time.quantize(4, zero, zero, 0).to_text(), "0.5");

    let time = parse("0.51");
    assert_eq!(time.quantize(4, zero, zero, 0).to_text(), "0.5");

    let time = parse("0.25");
    assert_eq!(time.quantize(4, dec("1.0"), zero, 0).to_text(), "0.29167");

    let time = parse("0.25");
    assert!(time.quantize(4, zero, dec("0.5"), 0).to_text() != "0.25");
}

#[test]
fn saturating_sub_stops_at_zero() {
    assert_eq!(parse("1.0").sub(parse("2.5")).to_text(), "0.0");
}

#[test]
fn add_saturates_at_largest_time() {
    let big = BeatTime::from_units(u64::MAX - 1);
    assert_eq!(big.add(parse("1.0")).repr, u64::MAX);
}

#[test]
fn quantize_zero_grid_keeps_time() {
    let t = parse("1.37");
    assert_eq!(t.quantize(0, FixedDecimal::zero(), FixedDecimal::zero(), 7), t);
}

#[test]
fn quantize_twice_is_quantize_once() {
    let zero = FixedDecimal::zero();
    for text in ["0.12", "0.13", "1.26", "3.99", "7.41"] {
        for swing in ["0", "0.5", "1"] {
            let once = parse(text).quantize(8, dec(swing), zero, 0);
            let twice = once.quantize(8, dec(swing), zero, 12345);
            assert_eq!(once, twice);
        }
    }
}

#[test]
fn humanize_moves_within_an_eighth_of_a_step() {
    let zero = FixedDecimal::zero();
    let t = parse("1.0");
    let early = t.quantize(4, zero, dec("1"), 0);
    let late = t.quantize(4, zero, dec("1"), u32::MAX);
    // an eighth of a quarter beat is 1/32 beat = 2^27 units
    assert_eq!(t.repr - early.repr, 1 << 27);
    assert!(late.repr > t.repr && late.repr - t.repr <= 1 << 27);
}

#[test]
fn decimal_text_round_trip() {
    assert_eq!(dec("1.234567").to_text(), "1.23457");
    assert_eq!(dec("1.2000").to_text(), "1.2");
    assert_eq!(dec("-5").to_text(), "-5.0");
    assert_eq!(dec("0").to_text(), "0.0");
    assert_eq!(dec("-0").to_text(), "0.0");
    assert_eq!(dec("0.0023").to_text(), "0.0023");
    assert_eq!(dec("+2").units, 200000);
    assert!(FixedDecimal::parse("1e5").is_none());
    assert!(FixedDecimal::parse("").is_none());
    assert!(FixedDecimal::parse(".5").is_none());
}

#[test]
fn micros_at_tempo() {
    assert_eq!(parse("1.0").as_micros(dec("120")), 500000);
    assert_eq!(parse("1.5").as_micros(dec("90")), 1000000);
    assert_eq!(BeatTime::from_micros(500000, dec("120")).to_text(), "1.0");
    assert_eq!(BeatTime::from_micros(1000000, dec("90")).to_text(), "1.5");
    assert_eq!(BeatTime::from_parts(3, 1 << 31).to_text(), "3.5");
}

#[test]
fn time_text_is_canonical() {
    for units in [0u64, 1, 12345, 1 << 31, (5 << 32) + 999_999, u64::MAX >> 1] {
        let t = BeatTime::from_units(units);
        let text = t.to_text();
        assert_eq!(parse(&text).to_text(), text);
    }
}
