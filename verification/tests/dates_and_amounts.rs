use ledger_sync::date::{date_from_parts, date_to_string, leap_year, month_length, parse_date, Date};
use ledger_sync::money::{amount_to_string, u64_to_dec_string};

#[test]
fn formats_a_date_with_padding() {
    let d = Date { year: 2021, month: 3, day: 1 };
    assert_eq!(date_to_string(d), "2021-03-01");
    let d = Date { year: 987, month: 12, day: 31 };
    assert_eq!(date_to_string(d), "0987-12-31");
}

#[test]
fn parses_a_valid_date() {
    assert_eq!(parse_date("2021-03-01"), Some(Date { year: 2021, month: 3, day: 1 }));
    assert_eq!(parse_date("2020-02-29"), Some(Date { year: 2020, month: 2, day: 29 }));
}

#[test]
fn rejects_malformed_dates() {
    assert_eq!(parse_date(""), None);
    assert_eq!(parse_date("2021-3-1"), None);
    assert_eq!(parse_date("2021-03-01x"), None);
    assert_eq!(parse_date("2021/03/01"), None);
    assert_eq!(parse_date("abcd-ef-gh"), None);
}

#[test]
fn rejects_impossible_dates() {
    assert_eq!(parse_date("2021-02-29"), None);
    assert_eq!(parse_date("2021-13-01"), None);
    assert_eq!(parse_date("2021-00-10"), None);
    assert_eq!(parse_date("2021-04-31"), None);
    assert_eq!(parse_date("2021-01-00"), None);
    assert_eq!(parse_date("0000-01-01"), None);
}

#[test]
fn parse_inverts_format() {
    let d = Date { year: 2019, month: 1, day: 1 };
    assert_eq!(parse_date(&date_to_string(d)), Some(d));
}

#[test]
fn leap_year_rule() {
    assert!(leap_year(2020));
    assert!(!leap_year(2021));
    assert!(!leap_year(1900));
    assert!(leap_year(2000));
}

#[test]
fn month_lengths() {
    assert_eq!(month_length(2021, 1), 31);
    assert_eq!(month_length(2021, 2), 28);
    assert_eq!(month_length(2020, 2), 29);
    assert_eq!(month_length(2021, 4), 30);
    assert_eq!(month_length(2021, 12), 31);
}

#[test]
fn date_from_parts_validates() {
    assert_eq!(date_from_parts(2021, 3, 1), Some(Date { year: 2021, month: 3, day: 1 }));
    assert_eq!(date_from_parts(2021, 2, 29), None);
    assert_eq!(date_from_parts(0, 1, 1), None);
    assert_eq!(date_from_parts(10000, 1, 1), None);
    assert_eq!(date_from_parts(2021, 0, 1), None);
    assert_eq!(date_from_parts(-5, 3, 1), None);
}

#[test]
fn amounts_render_with_two_decimals() {
    assert_eq!(amount_to_string(4250), "42.50");
    assert_eq!(amount_to_string(30), "0.30");
    assert_eq!(amount_to_string(0), "0.00");
    assert_eq!(amount_to_string(5), "0.05");
    assert_eq!(amount_to_string(100000), "1000.00");
    assert_eq!(amount_to_string(50000), "500.00");
    assert_eq!(amount_to_string(1), "0.01");
}

#[test]
fn decimal_rendering_has_no_leading_zeros() {
    assert_eq!(u64_to_dec_string(0), "0");
    assert_eq!(u64_to_dec_string(7), "7");
    assert_eq!(u64_to_dec_string(1234567890), "1234567890");
}
