use options_desk::format::{fmt_cash, fmt_cash_full, fmt_currency, fmt_currency_full, money_str};
use options_desk::money::{fmt_decimal, fmt_fixed4, parse_amount, parse_count, parse_money, parse_quantity};

#[test]
fn money_cells_read_with_their_decorations() {
    assert_eq!(parse_money("$1,234.56"), Some(1_234_560_000));
    assert_eq!(parse_money("  42 "), Some(42_000_000));
    assert_eq!(parse_money("-12.5"), Some(-12_500_000));
    assert_eq!(parse_money("(12.5)"), Some(-12_500_000));
    assert_eq!(parse_money("(-3)"), Some(-3_000_000));
    assert_eq!(parse_money("100 USD"), Some(100_000_000));
    assert_eq!(parse_money("7usd"), Some(7_000_000));
    assert_eq!(parse_money(".25"), Some(250_000));
    assert_eq!(parse_money("5."), Some(5_000_000));
    assert_eq!(parse_money("1\u{a0}000"), Some(1_000_000_000));
}

#[test]
fn money_cells_that_are_not_numbers() {
    assert_eq!(parse_money(""), None);
    assert_eq!(parse_money("   "), None);
    assert_eq!(parse_money("abc"), None);
    assert_eq!(parse_money("1.2.3"), None);
    assert_eq!(parse_money("$"), None);
    assert_eq!(parse_money("."), None);
    assert_eq!(parse_money("99999999999999"), None);
}

#[test]
fn digits_past_the_sixth_decimal_round_to_the_nearest_micro() {
    assert_eq!(parse_money("0.1234567"), Some(123_457));
    assert_eq!(parse_money("0.1234564999"), Some(123_456));
    assert_eq!(parse_amount("0.0000009"), Some(1));
    assert_eq!(parse_amount("0.0000005"), Some(0));
    assert_eq!(parse_amount("0.0000015"), Some(2));
    assert_eq!(parse_amount("0.00000050001"), Some(1));
    assert_eq!(parse_amount("-0.0000009"), Some(-1));
    assert_eq!(parse_quantity("100.0000"), Some(100_000_000));
}

#[test]
fn exponents_are_read_as_f64_reads_them() {
    assert_eq!(parse_amount("1e3"), Some(1_000_000_000));
    assert_eq!(parse_amount("2.5E-2"), Some(25_000));
    assert_eq!(parse_amount("-1.5e+1"), Some(-15_000_000));
    assert_eq!(parse_amount(".5e1"), Some(5_000_000));
    assert_eq!(parse_amount("5.e0"), Some(5_000_000));
    assert_eq!(parse_amount("1e-7"), Some(0));
    assert_eq!(parse_amount("6e-7"), Some(1));
    assert_eq!(parse_amount("1e-99999999999999999999999999999999"), Some(0));
    assert_eq!(parse_amount("0e99999999999999999999999999999999"), Some(0));
    assert_eq!(parse_amount("1e99999999999999999999999999999999"), None);
    assert_eq!(parse_amount("9.3e12"), None);
    assert_eq!(parse_amount("9.2e12"), Some(9_200_000_000_000_000_000));
    assert_eq!(parse_money("$1,234.5e1"), Some(12_345_000_000));
    // Not numbers: no mantissa digits, no exponent digits, and the float
    // spellings no amount can hold.
    for bad in ["e3", ".e3", "1e", "1e+", "1e-x", "1e3.5", "1ee3", "inf", "NaN", "infinity"] {
        assert_eq!(parse_amount(bad), None, "{}", bad);
    }
}

#[test]
fn typed_amounts_and_counts() {
    assert_eq!(parse_amount(" 12.5 "), Some(12_500_000));
    assert_eq!(parse_amount("-3"), Some(-3_000_000));
    assert_eq!(parse_amount("$3"), None);
    assert_eq!(parse_amount(""), None);
    assert_eq!(parse_count(" 3 "), Some(3));
    assert_eq!(parse_count("+12"), Some(12));
    assert_eq!(parse_count("4294967295"), Some(u32::MAX));
    assert_eq!(parse_count("4294967296"), None);
    assert_eq!(parse_count("-1"), None);
    assert_eq!(parse_count("1.5"), None);
    assert_eq!(parse_count("+"), None);
    assert_eq!(parse_count(""), None);
}

#[test]
fn decimals_print_shortest_and_fixed() {
    assert_eq!(fmt_decimal(100_500_000), "100.5");
    assert_eq!(fmt_decimal(-3_000_000), "-3");
    assert_eq!(fmt_decimal(250_000), "0.25");
    assert_eq!(fmt_fixed4(1_234_567), "1.2346");
    assert_eq!(fmt_fixed4(-500), "-0.0005");
    assert_eq!(fmt_fixed4(149), "0.0001");
    assert_eq!(fmt_fixed4(151), "0.0002");
}

#[test]
fn printed_decimals_read_back() {
    for v in [0i64, 1, -1, 250_000, 100_500_000, -3_000_000, 123_456_789_012] {
        assert_eq!(parse_money(&fmt_decimal(v)), Some(v));
    }
}

#[test]
fn money_prints_abbreviated_when_large() {
    assert_eq!(fmt_currency(1_234_560_000), "$1234.56");
    assert_eq!(fmt_currency(-1_234_560_000), "-$1234.56");
    assert_eq!(fmt_currency(12_345_000_000), "$12.3K");
    assert_eq!(fmt_currency(2_500_000_000_000), "$2.5M");
    assert_eq!(fmt_currency(-1_250_000_000_000_000), "-$1.2B");
    assert_eq!(fmt_currency(0), "$0.00");
    assert_eq!(fmt_cash(0), "+$0.00");
    assert_eq!(fmt_cash(9_999_994_999), "+$9999.99");
    assert_eq!(fmt_cash(-50_000_000_000), "-$50.0K");
    assert_eq!(fmt_cash(125_000), "+$0.12");
}

#[test]
fn money_prints_in_full() {
    assert_eq!(fmt_currency_full(12_345_678_900), "$12345.68");
    assert_eq!(fmt_currency_full(-1_230_000), "-$1.23");
    assert_eq!(fmt_cash_full(12_345_678_900), "+$12345.68");
    assert_eq!(fmt_cash_full(-1_006_000), "-$1.01");
    assert_eq!(fmt_cash_full(0), "+$0.00");
}

#[test]
fn input_fields_show_stored_amounts() {
    assert_eq!(money_str(0), "");
    assert_eq!(money_str(5_000_000_000), "5000");
    assert_eq!(money_str(-1_250_000), "-1.25");
}
