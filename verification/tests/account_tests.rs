use fundverse::account::{
    luhn_check, mask_account_identifier, mask_for_kind, validate_account_identifier,
    validate_for_kind,
};

#[test]
fn luhn_accepts_known_numbers() {
    assert!(luhn_check("4111111111111111"));
    assert!(luhn_check("4532015112830366"));
    assert!(luhn_check("79927398713"));
    assert!(luhn_check("0"));
    assert!(luhn_check(""));
}

#[test]
fn luhn_rejects_wrong_check_digits() {
    assert!(!luhn_check("4111111111111112"));
    assert!(!luhn_check("79927398710"));
    assert!(!luhn_check("1"));
    for d in 0..10u32 {
        let n = format!("7992739871{}", d);
        assert_eq!(luhn_check(&n), d == 3);
    }
}

#[test]
fn luhn_rejects_anything_but_digits() {
    assert!(!luhn_check("4111 1111 1111 1111"));
    assert!(!luhn_check("41111111111111x1"));
    assert!(!luhn_check("٤١١١"));
    assert!(!luhn_check("-0"));
}

#[test]
fn card_rules() {
    assert!(validate_account_identifier("card", "4111111111111111"));
    assert!(validate_account_identifier("card", "  4111111111111111 \n"));
    assert!(!validate_account_identifier("card", "4111111111111112"));
    assert!(!validate_account_identifier("card", "79927398713"));
    assert!(!validate_account_identifier("card", "4111-1111-1111-1111"));
    assert!(!validate_account_identifier("card", ""));
    // 13 digits that pass the check, and 20 that pass it
    assert!(validate_account_identifier("card", "4222222222222"));
    assert!(!validate_account_identifier("card", "00004111111111111111"));
    assert!(validate_account_identifier("card", "0004111111111111111"));
}

#[test]
fn method_type_is_compared_in_lower_case() {
    assert!(!validate_account_identifier("CARD", "4111111111111112"));
    assert!(!validate_account_identifier("Card", "4111111111111112"));
    assert!(validate_account_identifier("cards", "4111111111111112"));
    assert_eq!(mask_account_identifier("CARD", "4111111111111111"), "************1111");
    assert_eq!(mask_account_identifier("WaLLeT", "01012345678"), "******678");
}

#[test]
fn wallet_rules() {
    assert!(validate_account_identifier("wallet", "0101234"));
    assert!(validate_account_identifier("wallet", "010123456789012"));
    assert!(!validate_account_identifier("wallet", "010123"));
    assert!(!validate_account_identifier("wallet", "0101234567890123"));
    assert!(!validate_account_identifier("wallet", "01012x4567"));
}

#[test]
fn iban_and_bank_rules() {
    assert!(validate_account_identifier("iban", "EG380019000500000000263180002"));
    assert!(validate_account_identifier("bank", "AB123456"));
    assert!(!validate_account_identifier("bank", "AB12345"));
    assert!(!validate_account_identifier("bank", "AB-123456"));
    assert!(!validate_account_identifier("iban", "EG38001900050000000026318000212345X"));
    assert!(validate_account_identifier("iban", "EG3800190005000000002631800021234X"));
    assert!(!validate_account_identifier("bank", "ÄB1234567"));
}

#[test]
fn other_kinds_only_need_something() {
    assert!(validate_account_identifier("fawry", "x"));
    assert!(validate_account_identifier("", "x"));
    assert!(!validate_account_identifier("fawry", "   "));
    assert!(!validate_account_identifier("fawry", ""));
}

#[test]
fn validate_for_kind_takes_the_kind_as_given() {
    assert!(!validate_for_kind("card", "4111111111111112"));
    assert!(validate_for_kind("CARD", "4111111111111112"));
    assert!(validate_for_kind("card", "4111111111111111"));
}

#[test]
fn card_mask_shows_only_the_last_four() {
    let m = mask_account_identifier("card", "4111111111111111");
    assert_eq!(m, "************1111");
    let m = mask_account_identifier("card", "4532015112830366");
    assert_eq!(m, "************0366");
    assert_eq!(m.len(), 16);
    assert!(!m.contains("4532"));
}

#[test]
fn masks_by_kind() {
    assert_eq!(mask_account_identifier("wallet", "01012345678"), "******678");
    assert_eq!(mask_account_identifier("bank", "EG1234567890"), "****7890");
    assert_eq!(mask_account_identifier("fawry", "abcdefgh"), "****efgh");
    assert_eq!(mask_for_kind("card", "12345"), "************2345");
    assert_eq!(mask_for_kind("Card", "12345"), "****2345");
}

#[test]
fn short_identifiers_are_masked_whole() {
    assert_eq!(mask_account_identifier("card", "1234"), "****");
    assert_eq!(mask_account_identifier("wallet", "12"), "****");
    assert_eq!(mask_account_identifier("bank", ""), "****");
    assert_eq!(mask_account_identifier("card", "   1234   "), "****");
}

#[test]
fn mask_ignores_surrounding_whitespace() {
    assert_eq!(mask_account_identifier("card", "  4111111111111111\t"), "************1111");
    assert_eq!(mask_account_identifier("bank", "\u{a0}EG1234567890\u{2003}"), "****7890");
}

#[test]
fn mask_counts_characters() {
    assert_eq!(mask_account_identifier("other", "äöüßé"), "****öüßé");
    assert_eq!(mask_account_identifier("other", "äöüß"), "****");
}
