use mm_engine::decimal::{div_sat, mul_sat, sat_add, sat_sub, snap_to_tick, SCALE};
use mm_engine::wire::{
    count_text, decimal_len, fixed_text, float_to_wire, int_text, parse_decimal,
    parse_decimal_bytes, round_f64, round_to_5_sig_figs, wire_bytes, wire_round_trip,
};

fn d(text: &str) -> i64 {
    parse_decimal(text).unwrap()
}

#[test]
fn parse_reads_plain_decimals() {
    assert_eq!(parse_decimal("0"), Some(0));
    assert_eq!(parse_decimal("1"), Some(SCALE));
    assert_eq!(parse_decimal("100.5"), Some(10_050_000_000));
    assert_eq!(parse_decimal("-0.00000001"), Some(-1));
    assert_eq!(parse_decimal("+2.5"), Some(250_000_000));
    assert_eq!(parse_decimal(".5"), Some(50_000_000));
    assert_eq!(parse_decimal("5."), Some(500_000_000));
    assert_eq!(parse_decimal("007"), Some(700_000_000));
    assert_eq!(parse_decimal("92233720368.54775807"), Some(i64::MAX));
}

#[test]
fn parse_drops_digits_past_the_eighth() {
    assert_eq!(parse_decimal("0.123456789"), Some(12_345_678));
    assert_eq!(parse_decimal("0.999999999999"), Some(99_999_999));
}

#[test]
fn parse_refuses_what_is_no_decimal() {
    for text in ["", "-", "+", ".", "-.", "1e5", "abc", "1.2.3", "1,5", " 1", "1 ", "--1", "0x10", "1.5x"] {
        assert_eq!(parse_decimal(text), None, "{:?}", text);
    }
    assert_eq!(parse_decimal_bytes(&[0xff, 0x31]), None);
}

#[test]
fn parse_refuses_what_does_not_fit() {
    assert_eq!(parse_decimal("92233720368.54775808"), None);
    assert_eq!(parse_decimal("100000000000"), None);
    assert_eq!(parse_decimal("99999999999999999999999999999999"), None);
    assert_eq!(parse_decimal("-92233720368.54775807"), Some(-i64::MAX));
}

#[test]
fn wire_strips_trailing_zeros_and_the_dot() {
    assert_eq!(float_to_wire(d("100")), "100");
    assert_eq!(float_to_wire(d("100.5")), "100.5");
    assert_eq!(float_to_wire(d("0.00012")), "0.00012");
    assert_eq!(float_to_wire(1), "0.00000001");
    assert_eq!(float_to_wire(0), "0");
    assert_eq!(float_to_wire(d("-0.5")), "-0.5");
    assert_eq!(float_to_wire(d("-12")), "-12");
    assert_eq!(float_to_wire(d("1234.5678")), "1234.5678");
    assert_eq!(float_to_wire(i64::MAX), "92233720368.54775807");
    assert_eq!(float_to_wire(i64::MIN), "-92233720368.54775808");
    assert_eq!(wire_bytes(d("3.25")), b"3.25".to_vec());
}

#[test]
fn wire_round_trips() {
    let samples = [
        0,
        1,
        -1,
        10,
        99_999_999,
        SCALE,
        SCALE + 1,
        -SCALE,
        123_456_789_012,
        i64::MAX,
        -i64::MAX,
        d("99.985"),
        d("0.1"),
    ];
    for x in samples {
        let text = float_to_wire(x);
        assert_eq!(parse_decimal(&text), Some(x));
        assert_eq!(wire_round_trip(x), Some(x));
        assert!(!text.ends_with('.'));
        if text.contains('.') {
            assert!(!text.ends_with('0'));
        }
    }
}

#[test]
fn snapped_prices_round_trip_on_the_wire() {
    for (price, tick) in [("99.985", "0.1"), ("99.985", "0.01"), ("27123.4567", "0.5"), ("0.000123", "0.00001")] {
        let snapped = snap_to_tick(d(price), d(tick));
        assert_eq!(parse_decimal(&float_to_wire(snapped)), Some(snapped));
    }
}

#[test]
fn five_significant_figures() {
    assert_eq!(round_to_5_sig_figs(0), 0);
    assert_eq!(round_to_5_sig_figs(d("123.456")), d("123.46"));
    assert_eq!(round_to_5_sig_figs(d("0.00123456")), d("0.0012346"));
    assert_eq!(round_to_5_sig_figs(d("27123.4567")), d("27123"));
    assert_eq!(round_to_5_sig_figs(d("99999.5")), d("100000"));
    assert_eq!(round_to_5_sig_figs(d("1234567.4")), d("1234567"));
    assert_eq!(round_to_5_sig_figs(d("1234567.5")), d("1234568"));
    assert_eq!(round_to_5_sig_figs(d("-123.455")), d("-123.46"));
    assert_eq!(round_to_5_sig_figs(d("1.00005")), d("1.0001"));
    // Below 0.001 the eight decimals that a quantity has are all kept.
    assert_eq!(round_to_5_sig_figs(d("0.00012345")), d("0.00012345"));
    assert_eq!(round_to_5_sig_figs(105 * SCALE), 105 * SCALE);
}

#[test]
fn rounding_to_decimals() {
    assert_eq!(round_f64(d("1.23456789"), 4), d("1.2346"));
    assert_eq!(round_f64(d("1.23455"), 4), d("1.2346"));
    assert_eq!(round_f64(d("1.23454999"), 4), d("1.2345"));
    assert_eq!(round_f64(d("-1.5"), 0), d("-2"));
    assert_eq!(round_f64(d("2.5"), 0), d("3"));
    assert_eq!(round_f64(d("1.23456789"), 8), d("1.23456789"));
    assert_eq!(round_f64(d("1.23456789"), 12), d("1.23456789"));
}

#[test]
fn decimal_lengths() {
    assert_eq!(decimal_len(0), 1);
    assert_eq!(decimal_len(9), 1);
    assert_eq!(decimal_len(10), 2);
    assert_eq!(decimal_len(99_999), 5);
    assert_eq!(decimal_len(u64::MAX), 20);
}

#[test]
fn saturating_arithmetic() {
    assert_eq!(sat_add(i64::MAX, 1), i64::MAX);
    assert_eq!(sat_add(i64::MIN, -1), i64::MIN);
    assert_eq!(sat_add(2, 3), 5);
    assert_eq!(sat_sub(i64::MIN, 1), i64::MIN);
    assert_eq!(sat_sub(0, i64::MIN), i64::MAX);
    assert_eq!(sat_sub(7, 9), -2);
    assert_eq!(mul_sat(d("2.5"), d("4")), d("10"));
    assert_eq!(mul_sat(d("-2.5"), d("4")), d("-10"));
    assert_eq!(mul_sat(d("-2.5"), d("-4")), d("10"));
    assert_eq!(mul_sat(3, 50_000_000), 1);
    assert_eq!(mul_sat(-3, 50_000_000), -1);
    assert_eq!(mul_sat(i64::MAX, i64::MAX), i64::MAX);
    assert_eq!(mul_sat(i64::MAX, i64::MIN), i64::MIN);
    assert_eq!(mul_sat(i64::MIN, i64::MIN), i64::MAX);
    assert_eq!(div_sat(d("10"), d("4")), d("2.5"));
    assert_eq!(div_sat(d("-10"), d("4")), d("-2.5"));
    assert_eq!(div_sat(d("1"), d("3")), 33_333_333);
    assert_eq!(div_sat(d("-1"), d("3")), -33_333_333);
    assert_eq!(div_sat(i64::MAX, 1), i64::MAX);
    assert_eq!(div_sat(i64::MIN, 1), i64::MIN);
}

#[test]
fn fixed_decimals_and_whole_numbers() {
    assert_eq!(fixed_text(d("27001"), 6), "27001.000000");
    assert_eq!(fixed_text(d("0.37035665"), 4), "0.3704");
    assert_eq!(fixed_text(d("0.00005"), 4), "0.0001");
    assert_eq!(fixed_text(d("0.00004999"), 4), "0.0000");
    assert_eq!(fixed_text(d("-0.00004"), 4), "0.0000");
    assert_eq!(fixed_text(d("-1.005"), 2), "-1.01");
    assert_eq!(fixed_text(d("2.5"), 0), "3");
    assert_eq!(fixed_text(d("1.23456789"), 8), "1.23456789");
    assert_eq!(fixed_text(i64::MIN, 2), "-92233720368.55");
    assert_eq!(int_text(0), "0");
    assert_eq!(int_text(-42), "-42");
    assert_eq!(int_text(i64::MIN), "-9223372036854775808");
    assert_eq!(count_text(1_000), "1000");
}
