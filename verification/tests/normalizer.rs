use ledger_sync::normalize::normalize;

#[test]
fn strips_leading_date_prefix() {
    assert_eq!(normalize("12.02 KIWI OSLO"), "KIWI OSLO");
}

#[test]
fn strips_trailing_pay_stamp() {
    assert_eq!(normalize("KIWI OSLO Betalt: 01.03.21"), "KIWI OSLO");
}

#[test]
fn strips_til_label() {
    assert_eq!(normalize("Til: Savings"), "Savings");
}

#[test]
fn strips_fra_label() {
    assert_eq!(normalize("Fra: Checking"), "Checking");
}

#[test]
fn card_purchase_collapses_to_merchant() {
    assert_eq!(
        normalize("*6227 26.02 NOK 30.00 COCA-COLA ENTERPRISES NOR Kurs: 1.0000"),
        "COCA-COLA ENTERPRISES NOR"
    );
}

#[test]
fn scenario_date_prefix_and_pay_stamp_together() {
    assert_eq!(normalize("12.02 KIWI OSLO Betalt: 01.03.21"), "KIWI OSLO");
}

#[test]
fn merchant_prefix_is_canonicalized_case_insensitively() {
    assert_eq!(normalize("sTeAmgames.com 4259522985"), "Steam");
    assert_eq!(normalize("SKIMORE OSLO"), "Skimore");
    assert_eq!(normalize("starbucks oslo airport"), "Starbucks");
    assert_eq!(normalize("Domeneshop AS"), "Domeneshop");
    assert_eq!(normalize("HOKKSUND SUSHI OG THAI AS"), "Hokksund Sushi og Thai");
    assert_eq!(normalize("Tekna medlemskontingent"), "TEKNA");
}

#[test]
fn card_merchant_feeds_the_prefix_rule() {
    assert_eq!(normalize("*1234 01.02 USD 9.99 STEAM PURCHASE Kurs: 8.5000"), "Steam");
}

#[test]
fn trims_surrounding_whitespace() {
    assert_eq!(normalize("  plain text  "), "plain text");
    assert_eq!(normalize("   "), "");
    assert_eq!(normalize(""), "");
}

#[test]
fn unmatched_text_is_kept() {
    assert_eq!(normalize("REMA 1000 HOKKSUND"), "REMA 1000 HOKKSUND");
}

#[test]
fn card_pattern_without_rate_tail_is_kept() {
    assert_eq!(normalize("*6227 26.02 NOK 30.00 SOMETHING"), "*6227 26.02 NOK 30.00 SOMETHING");
}

#[test]
fn normalize_is_idempotent_on_samples() {
    let samples = [
        "12.02 KIWI OSLO Betalt: 01.03.21",
        "Til: Savings",
        "Fra: Checking",
        "*6227 26.02 NOK 30.00 COCA-COLA ENTERPRISES NOR Kurs: 1.0000",
        "sTeAm purchase",
        "  REMA 1000  ",
        "plain text",
        "",
        "Vipps*Someone",
    ];
    for s in samples {
        let once = normalize(s);
        let twice = normalize(&once);
        assert_eq!(twice, once, "not idempotent on {s:?}");
    }
}
