use arb_bot::binary64::Binary64;
use arb_bot::natural::Natural;

fn compare_text(text: &str) {
    let expected = text.parse::<f64>().ok();
    let actual = Binary64::parse(text).map(|x| x.to_bits());
    match expected {
        Some(x) if x.is_nan() => assert!(f64::from_bits(actual.unwrap()).is_nan()),
        _ => assert_eq!(actual, expected.map(f64::to_bits), "{}", text),
    }
}

#[test]
fn prices_are_read_as_the_standard_library_reads_them() {
    for text in [
        "47.123", "0.000672", "20", "20.0", "1", "2.5", "0.1", "0.3", "123456.789", "1e3", "1E-3", "1e+3",
        "-12.5", "+12.5", "00012.50", ".5", "5.", "-.5e1", "0", "-0", "0.0", "0e5", "9007199254740993",
        "9007199254740992.5", "9007199254740993.0000000000000000000000000001", "179.76931348623157e306",
        "1.7976931348623157e308", "1.7976931348623159e308", "1.797693134862315807e308", "1e309", "1e400",
        "1e401", "1e99999999999999999999999999999999999999", "5e-324", "2.4703282292062327e-324",
        "2.4703282292062328e-324", "2.2250738585072011e-308", "2.2250738585072014e-308", "1e-400",
        "1e-99999999999999999999999999999999999999", "0e99999999999999999999999999999999999999",
    ] {
        compare_text(text);
    }
}

fn bits(text: &str) -> u64 {
    Binary64::parse(text).unwrap().to_bits()
}

#[test]
fn zeros_behind_the_last_decimal_make_no_difference() {
    assert_eq!(bits("20"), 0x4034_0000_0000_0000);
    assert_eq!(bits("20.0"), bits("20"));
    assert_eq!(bits("20.000"), bits("20"));
    assert_eq!(bits("0.0006720"), bits("0.000672"));
    assert_eq!(bits("0.000672"), 0x3f46_0525_02ee_c7c9);
    assert_eq!(bits("47.1230000000000000000000"), bits("47.123"));
    assert_eq!(bits("200e-1"), bits("20"));
}

#[test]
fn greater_decimals_are_not_read_as_lesser_numbers() {
    let texts = [
        "0", "1e-330", "3e-324", "5e-324", "1e-308", "0.000671", "0.000672", "0.1", "0.10000000000000001",
        "0.3", "47.122", "47.123", "9007199254740992", "9007199254740993", "9007199254740995", "1e308",
        "1.8e308", "1e400",
    ];
    for pair in texts.windows(2) {
        let low = Binary64::parse(pair[0]).unwrap();
        let high = Binary64::parse(pair[1]).unwrap();
        assert!(!high.less_than(low), "{} {}", pair[0], pair[1]);
    }
    assert_eq!(bits("9007199254740993"), bits("9007199254740992"));
    assert_eq!(bits("0.1"), bits("0.10000000000000001"));
}

#[test]
fn words_are_read_in_either_case() {
    for text in [
        "inf", "-inf", "+inf", "INF", "Infinity", "-infinity", "INFINITY", "nan", "NaN", "-nan", "+NAN",
    ] {
        compare_text(text);
    }
    assert_eq!(Binary64::parse("-Inf").unwrap().to_bits(), f64::NEG_INFINITY.to_bits());
}

#[test]
fn what_is_no_number_is_refused() {
    for text in [
        "", "+", "-", ".", "e", "e5", "1e", "1e+", "1e-", "1.2.3", "1 ", " 1", "1_000", "--1", "+-1", "0x10",
        "infinit", "infinityx", "na", "nann", "1,5", "1f", "\u{661}", "1e5.0", ".e5", "-.", "\u{2212}1",
    ] {
        assert!(Binary64::parse(text).is_none(), "{}", text);
        compare_text(text);
    }
}

#[test]
fn long_texts_are_rounded_once() {
    let halfway = "1.00000000000000011102230246251565404236316680908203125";
    compare_text(halfway);
    compare_text(&format!("{}1", halfway));
    compare_text(&format!("{}0000000000000000000000000000000000000001", halfway));
    compare_text("1.00000000000000011102230246251565404236316680908203124");
    let zeros = "0".repeat(330);
    compare_text(&format!("0.{}1", zeros));
    compare_text(&format!("0.{}1e330", zeros));
    compare_text(&format!("1{}", zeros));
    compare_text(&format!("1{}e-330", zeros));
    compare_text(&format!("1{}e-300", zeros));
}

#[test]
fn printed_numbers_are_read_back() {
    let mut state = 3u64;
    for _ in 0..150 {
        state = state.wrapping_mul(6364136223846793005).wrapping_add(1442695040888963407);
        let x = f64::from_bits(state ^ (state >> 31));
        if x.is_finite() {
            compare_text(&format!("{}", x));
            compare_text(&format!("{:e}", x));
            compare_text(&format!("{:.3e}", x));
        }
        let price = (state >> 40) as f64 / 1000.0;
        compare_text(&format!("{:.3}", price));
    }
}

#[test]
fn naturals_multiply_and_compare() {
    let mut big = Natural::zero();
    big.multiply_add(7, u64::MAX);
    big.multiply_add(u64::MAX, 5);
    let mut same = Natural::zero();
    same.multiply_add(1, u64::MAX);
    same.multiply_add(u64::MAX, 5);
    assert!(big.at_most(&same) && same.at_most(&big));
    same.multiply_add(1, 1);
    assert!(big.at_most(&same) && !same.at_most(&big));
    let mut two = Natural::zero();
    two.multiply_add(1, 1);
    two.times_power_of_two(100);
    let mut ten = Natural::zero();
    ten.multiply_add(1, 1);
    ten.times_power_of_ten(30);
    assert!(ten.at_most(&two) && !two.at_most(&ten));
    let copied = two.copy();
    assert!(copied.at_most(&two) && two.at_most(&copied));
}
