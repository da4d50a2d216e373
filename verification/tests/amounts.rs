use finance_ledger::amount::{
    format_amount, parse_numeral, parse_numeral_noting, read_amount, read_amount_noting,
    strip_currency,
};

fn chars(s: &str) -> Vec<char> {
    s.chars().collect()
}

fn text(v: Vec<char>) -> String {
    v.into_iter().collect()
}

#[test]
fn strip_drops_glyph_and_separators() {
    assert_eq!(text(strip_currency(&chars("\u{20B1}1,000.00"))), "1000.00");
    assert_eq!(text(strip_currency(&chars(",,\u{20B1},"))), "");
    assert_eq!(text(strip_currency(&chars("-500"))), "-500");
}

#[test]
fn numeral_whole_and_fraction() {
    assert_eq!(parse_numeral(&chars("1000.00")), Some(100_000));
    assert_eq!(parse_numeral(&chars("-500")), Some(-50_000));
    assert_eq!(parse_numeral(&chars("+12.5")), Some(1_250));
    assert_eq!(parse_numeral(&chars("0.05")), Some(5));
    assert_eq!(parse_numeral(&chars("-0.05")), Some(-5));
    assert_eq!(parse_numeral(&chars("7.")), Some(700));
    assert_eq!(parse_numeral(&chars(".5")), Some(50));
    assert_eq!(parse_numeral(&chars("000123")), Some(12_300));
}

#[test]
fn numeral_rounds_to_the_nearest_centavo() {
    assert_eq!(parse_numeral(&chars("1.239")), Some(124));
    assert_eq!(parse_numeral(&chars("1.234")), Some(123));
    assert_eq!(parse_numeral(&chars("1.235")), Some(124));
    assert_eq!(parse_numeral(&chars("-1.235")), Some(-124));
    assert_eq!(parse_numeral(&chars("-1.999")), Some(-200));
    assert_eq!(parse_numeral(&chars("0.001")), Some(0));
    assert_eq!(parse_numeral(&chars("0.004999")), Some(0));
    assert_eq!(parse_numeral(&chars("0.005")), Some(1));
    assert_eq!(parse_numeral(&chars("-0.005")), Some(-1));
    assert_eq!(parse_numeral(&chars("0.0049")), Some(0));
    assert_eq!(parse_numeral(&chars("9.995")), Some(1_000));
    assert_eq!(parse_numeral(&chars("0.00000000000000000000000000000000000009")), Some(0));
}

#[test]
fn numeral_with_an_exponent() {
    assert_eq!(parse_numeral(&chars("1e3")), Some(100_000));
    assert_eq!(parse_numeral(&chars("1E3")), Some(100_000));
    assert_eq!(parse_numeral(&chars("1e+3")), Some(100_000));
    assert_eq!(parse_numeral(&chars("2.5E-1")), Some(25));
    assert_eq!(parse_numeral(&chars("-2.5e-1")), Some(-25));
    assert_eq!(parse_numeral(&chars("1e0")), Some(100));
    assert_eq!(parse_numeral(&chars("1e-2")), Some(1));
    assert_eq!(parse_numeral(&chars("1e-3")), Some(0));
    assert_eq!(parse_numeral(&chars("5e-3")), Some(1));
    assert_eq!(parse_numeral(&chars("4.9e-3")), Some(0));
    assert_eq!(parse_numeral(&chars(".5e1")), Some(500));
    assert_eq!(parse_numeral(&chars("5.e1")), Some(5_000));
    assert_eq!(parse_numeral(&chars("12.345e2")), Some(123_450));
    assert_eq!(parse_numeral(&chars("12.345e1")), Some(12_345));
    assert_eq!(parse_numeral(&chars("12.345e0")), Some(1_235));
    assert_eq!(parse_numeral(&chars("12.345e-1")), Some(123));
    assert_eq!(parse_numeral(&chars("12.345e-4")), Some(0));
    assert_eq!(parse_numeral(&chars("00012.5e0003")), Some(1_250_000));
    assert_eq!(parse_numeral(&chars("12345678901234567890123e-10")), Some(123_456_789_012_346));
}

#[test]
fn exponent_must_be_whole_and_present() {
    assert_eq!(parse_numeral(&chars("1e")), None);
    assert_eq!(parse_numeral(&chars("1e+")), None);
    assert_eq!(parse_numeral(&chars("1e-")), None);
    assert_eq!(parse_numeral(&chars("e5")), None);
    assert_eq!(parse_numeral(&chars(".e5")), None);
    assert_eq!(parse_numeral(&chars("1e5.5")), None);
    assert_eq!(parse_numeral(&chars("1e5e5")), None);
    assert_eq!(parse_numeral(&chars("1e 5")), None);
    assert_eq!(parse_numeral(&chars("1e++5")), None);
    assert_eq!(parse_numeral(&chars("1x3")), None);
}

#[test]
fn exponents_of_any_size() {
    assert_eq!(parse_numeral(&chars("0e99999999999999999999999999999999999999999999")), Some(0));
    assert_eq!(parse_numeral(&chars("0.000e99999999999999999999999999999999999999")), Some(0));
    assert_eq!(parse_numeral(&chars("1e-9999999999999999999999999999999999999999999")), Some(0));
    assert_eq!(parse_numeral(&chars("-7e-99999999999999999999999999")), Some(0));
    assert_eq!(parse_numeral(&chars("1e99999999999999999999999999999999999999999999")), None);
    assert_eq!(parse_numeral(&chars("1e400")), None);
    assert_eq!(parse_numeral(&chars("1e17")), None);
    assert_eq!(parse_numeral(&chars("9e16")), Some(9_000_000_000_000_000_000));
    assert_eq!(parse_numeral(&chars("0.00000000000000000001e36")), Some(1_000_000_000_000_000_000));
}

#[test]
fn cell_with_decorations() {
    assert_eq!(read_amount("\u{20B1}1,000.00"), Some(100_000));
    assert_eq!(read_amount("-\u{20B1}2,500.5"), Some(-250_050));
    assert_eq!(read_amount("1,2,3"), Some(12_300));
    assert_eq!(read_amount("\u{20B1}"), None);
    assert_eq!(read_amount("\u{20B1}1,0e3"), Some(1_000_000));
    assert_eq!(read_amount("$5"), None);
    assert_eq!(read_amount(""), None);
}

#[test]
fn amount_text_forms() {
    assert_eq!(format_amount(0), "0");
    assert_eq!(format_amount(6_000), "60");
    assert_eq!(format_amount(-4_000), "-40");
    assert_eq!(format_amount(-4_050), "-40.5");
    assert_eq!(format_amount(5), "0.05");
    assert_eq!(format_amount(-5), "-0.05");
    assert_eq!(format_amount(123_456), "1234.56");
    assert_eq!(format_amount(10), "0.1");
    assert_eq!(format_amount(i64::MAX), "92233720368547758.07");
    assert_eq!(format_amount(i64::MIN), "-92233720368547758.08");
}

#[test]
fn amount_text_reads_back() {
    for centavos in [0i64, 1, -1, 99, 100, -100, 12_345, -98_765, i64::MAX, -i64::MAX] {
        assert_eq!(read_amount(&format_amount(centavos)), Some(centavos));
    }
}

#[test]
fn rounding_is_noted() {
    assert_eq!(parse_numeral_noting(&chars("1.23")), Some((123, false)));
    assert_eq!(parse_numeral_noting(&chars("1.230000")), Some((123, false)));
    assert_eq!(parse_numeral_noting(&chars("1.2300001")), Some((123, true)));
    assert_eq!(parse_numeral_noting(&chars("1.239")), Some((124, true)));
    assert_eq!(parse_numeral_noting(&chars("-0.005")), Some((-1, true)));
    assert_eq!(parse_numeral_noting(&chars("0.001")), Some((0, true)));
    assert_eq!(parse_numeral_noting(&chars("0.000")), Some((0, false)));
    assert_eq!(parse_numeral_noting(&chars("1e3")), Some((100_000, false)));
    assert_eq!(parse_numeral_noting(&chars("12.345e1")), Some((12_345, false)));
    assert_eq!(parse_numeral_noting(&chars("12.345e0")), Some((1_235, true)));
    assert_eq!(parse_numeral_noting(&chars("1e-3")), Some((0, true)));
    assert_eq!(parse_numeral_noting(&chars("0e-3")), Some((0, false)));
    assert_eq!(parse_numeral_noting(&chars("1e-99999999999999999999999999999")), Some((0, true)));
    assert_eq!(parse_numeral_noting(&chars("0e-99999999999999999999999999999")), Some((0, false)));
    assert_eq!(parse_numeral_noting(&chars("0e99999999999999999999999999999")), Some((0, false)));
    assert_eq!(parse_numeral_noting(&chars("abc")), None);
    assert_eq!(read_amount_noting("\u{20B1}1,000.005"), Some((100_001, true)));
    assert_eq!(read_amount_noting("\u{20B1}1,000.50"), Some((100_050, false)));
    assert_eq!(read_amount_noting("n/a"), None);
}
