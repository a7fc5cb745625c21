use candid::Principal;
use fundverse::payment::{PaymentError, PaymentGateway, PaymentStatus, FRACTION_PRICE};

fn who(n: u8) -> Principal {
    Principal::from_slice(&[n, 4, 2])
}

fn card(g: &mut PaymentGateway, owner: Principal, now: u64) -> u64 {
    g.register_payment_method(
        owner,
        "Card".to_string(),
        "Visa".to_string(),
        " 4111111111111111 ".to_string(),
        "EGP".to_string(),
        now,
    )
    .unwrap()
}

#[test]
fn ids_come_from_one_counter() {
    let mut g = PaymentGateway::new();
    assert_eq!(g.last_id(), 0);
    assert_eq!(g.next_payment_method_id(), 1);
    assert_eq!(g.next_payment_method_id(), 2);
    assert_eq!(card(&mut g, who(1), 5), 3);
    assert_eq!(g.initiate_payment(who(1), 1, 1, 5000, 3, 6).unwrap(), 4);
    assert_eq!(card(&mut g, who(1), 7), 5);
    assert_eq!(g.last_id(), 5);
}

#[test]
fn registration_keeps_only_the_masked_account() {
    let mut g = PaymentGateway::new();
    let id = card(&mut g, who(1), 5);
    let m = g.get_payment_method(id).unwrap();
    assert_eq!(m.id, id);
    assert_eq!(m.owner, who(1));
    assert_eq!(m.method_type, "Card");
    assert_eq!(m.provider, "Visa");
    assert_eq!(m.masked_account, "************1111");
    assert_eq!(m.currency, "EGP");
    assert!(m.is_active);
    assert_eq!(m.created_at_ns, 5);
    assert!(g.get_payment_method(id + 1).is_none());
}

#[test]
fn luhn_invalid_card_is_rejected_at_registration() {
    let mut g = PaymentGateway::new();
    let r = g.register_payment_method(
        who(1),
        "card".to_string(),
        "Visa".to_string(),
        "4111111111111112".to_string(),
        "EGP".to_string(),
        5,
    );
    assert_eq!(r, Err(PaymentError::InvalidAccount));
    assert_eq!(g.last_id(), 0);
    assert!(g.get_user_payment_methods(None, who(1)).is_empty());
}

#[test]
fn registration_needs_type_provider_and_currency() {
    let mut g = PaymentGateway::new();
    for (t, p, c) in [("  ", "Visa", "EGP"), ("card", "\t", "EGP"), ("card", "Visa", "")] {
        let r = g.register_payment_method(
            who(1),
            t.to_string(),
            p.to_string(),
            "4111111111111111".to_string(),
            c.to_string(),
            5,
        );
        assert_eq!(r, Err(PaymentError::MissingFields));
    }
    // a missing field is reported before a bad account
    let r = g.register_payment_method(
        who(1), "".to_string(), "Visa".to_string(), "".to_string(), "EGP".to_string(), 5,
    );
    assert_eq!(r, Err(PaymentError::MissingFields));
    assert_eq!(g.last_id(), 0);
}

#[test]
fn user_methods_are_the_active_ones_in_order() {
    let mut g = PaymentGateway::new();
    let a = card(&mut g, who(1), 1);
    let b = card(&mut g, who(2), 2);
    let c = g
        .register_payment_method(
            who(1),
            "wallet".to_string(),
            "VodafoneCash".to_string(),
            "01012345678".to_string(),
            "EGP".to_string(),
            3,
        )
        .unwrap();
    let ids: Vec<u64> = g.get_user_payment_methods(None, who(1)).iter().map(|m| m.id).collect();
    assert_eq!(ids, vec![a, c]);
    let ids: Vec<u64> =
        g.get_user_payment_methods(Some(who(2)), who(1)).iter().map(|m| m.id).collect();
    assert_eq!(ids, vec![b]);
    g.deactivate_payment_method(who(1), a).unwrap();
    let left = g.get_user_payment_methods(None, who(1));
    assert_eq!(left.len(), 1);
    assert_eq!(left[0].id, c);
    assert_eq!(left[0].masked_account, "******678");
    assert!(g.get_user_payment_methods(None, who(3)).is_empty());
}

#[test]
fn deactivation_is_for_the_owner() {
    let mut g = PaymentGateway::new();
    let a = card(&mut g, who(1), 1);
    assert_eq!(g.deactivate_payment_method(who(2), a), Err(PaymentError::NotOwner));
    assert_eq!(g.deactivate_payment_method(who(1), 9), Err(PaymentError::MethodNotFound));
    assert!(g.get_payment_method(a).unwrap().is_active);
    assert_eq!(g.deactivate_payment_method(who(1), a), Ok(()));
    let m = g.get_payment_method(a).unwrap();
    assert!(!m.is_active);
    assert_eq!(m.masked_account, "************1111");
    assert_eq!(m.owner, who(1));
}

#[test]
fn initiate_payment_checks_the_method() {
    let mut g = PaymentGateway::new();
    let a = card(&mut g, who(1), 1);
    assert_eq!(g.initiate_payment(who(1), 1, 2, 300, 9, 5), Err(PaymentError::MethodNotFound));
    assert_eq!(g.initiate_payment(who(2), 1, 2, 300, a, 5), Err(PaymentError::InvalidMethod));
    g.deactivate_payment_method(who(1), a).unwrap();
    assert_eq!(g.initiate_payment(who(1), 1, 2, 300, a, 5), Err(PaymentError::InvalidMethod));
    assert_eq!(g.last_id(), a);
    assert!(g.get_investor_payments(who(1)).is_empty());
}

#[test]
fn payment_goes_from_pending_to_verified_once() {
    let mut g = PaymentGateway::new();
    let a = card(&mut g, who(1), 1);
    let p = g.initiate_payment(who(1), 11, 22, 5_999, a, 5).unwrap();
    let v = g.get_payment_verification(p).unwrap();
    assert_eq!(v.payment_id, p);
    assert_eq!(v.investor, who(1));
    assert_eq!(v.spv_id, 11);
    assert_eq!(v.deal_id, 22);
    assert_eq!(v.amount, 5_999);
    assert_eq!(v.payment_method_id, a);
    assert_eq!(v.status, PaymentStatus::Pending);
    assert_eq!(v.created_at_ns, 5);
    assert_eq!(v.verified_at_ns, None);
    assert_eq!(FRACTION_PRICE, 1000);
    assert_eq!(g.verify_payment(p, 9), Ok(5));
    let v = g.get_payment_verification(p).unwrap();
    assert_eq!(v.status, PaymentStatus::Verified);
    assert_eq!(v.verified_at_ns, Some(9));
    assert_eq!(v.amount, 5_999);
    assert_eq!(g.verify_payment(p, 10), Err(PaymentError::AlreadyProcessed));
    assert_eq!(g.get_payment_verification(p).unwrap().verified_at_ns, Some(9));
    assert_eq!(g.verify_payment(77, 10), Err(PaymentError::VerificationNotFound));
    assert!(g.get_payment_verification(77).is_none());
    // a method id is no payment id
    assert_eq!(g.verify_payment(a, 10), Err(PaymentError::VerificationNotFound));
}

#[test]
fn fractions_round_down() {
    let mut g = PaymentGateway::new();
    let a = card(&mut g, who(1), 1);
    for (amount, fractions) in [(0u64, 0u64), (999, 0), (1000, 1), (1999, 1), (2000, 2)] {
        let p = g.initiate_payment(who(1), 1, 1, amount, a, 5).unwrap();
        assert_eq!(g.verify_payment(p, 6), Ok(fractions));
    }
    let p = g.initiate_payment(who(1), 1, 1, u64::MAX, a, 5).unwrap();
    assert_eq!(g.verify_payment(p, 6), Ok(18_446_744_073_709_551));
}

#[test]
fn investor_payments_by_id() {
    let mut g = PaymentGateway::new();
    let a = card(&mut g, who(1), 1);
    let b = card(&mut g, who(2), 1);
    let p1 = g.initiate_payment(who(1), 1, 1, 10, a, 5).unwrap();
    let p2 = g.initiate_payment(who(2), 1, 1, 20, b, 5).unwrap();
    let p3 = g.initiate_payment(who(1), 1, 2, 30, a, 5).unwrap();
    let mine: Vec<u64> = g.get_investor_payments(who(1)).iter().map(|v| v.payment_id).collect();
    assert_eq!(mine, vec![p1, p3]);
    let theirs = g.get_investor_payments(who(2));
    assert_eq!(theirs.len(), 1);
    assert_eq!(theirs[0].payment_id, p2);
    assert_eq!(theirs[0].amount, 20);
    assert!(g.get_investor_payments(who(3)).is_empty());
}

#[test]
fn token_service_can_be_named() {
    let mut g = PaymentGateway::new();
    g.set_spv_token_canister(who(1), who(1), who(9));
    assert_eq!(g.last_id(), 0);
}

#[test]
fn payment_error_messages() {
    assert_eq!(
        PaymentError::MissingFields.message(),
        "method_type, provider and currency are required"
    );
    assert_eq!(PaymentError::InvalidAccount.message(), "account_identifier validation failed");
    assert_eq!(PaymentError::MethodNotFound.message(), "Payment method not found");
    assert_eq!(
        PaymentError::NotOwner.message(),
        "You are not the owner of this payment method"
    );
    assert_eq!(PaymentError::InvalidMethod.message(), "Invalid or inactive payment method");
    assert_eq!(PaymentError::VerificationNotFound.message(), "Payment verification not found");
    assert_eq!(PaymentError::AlreadyProcessed.message(), "Payment already processed");
}

#[test]
fn try_register_does_what_register_does() {
    let mut g = PaymentGateway::new();
    let r = g.try_register_payment_method(
        who(1),
        "card".to_string(),
        "Visa".to_string(),
        "4111111111111111".to_string(),
        "EGP".to_string(),
        5,
    );
    assert_eq!(r, Some(Ok(1)));
    assert_eq!(g.get_payment_method(1).unwrap().masked_account, "************1111");
    let r = g.try_register_payment_method(
        who(1),
        "card".to_string(),
        "Visa".to_string(),
        "4111111111111112".to_string(),
        "EGP".to_string(),
        5,
    );
    assert_eq!(r, Some(Err(PaymentError::InvalidAccount)));
    let r = g.try_register_payment_method(
        who(1),
        "card".to_string(),
        " ".to_string(),
        "4111111111111111".to_string(),
        "EGP".to_string(),
        5,
    );
    assert_eq!(r, Some(Err(PaymentError::MissingFields)));
    assert_eq!(g.last_id(), 1);
}

#[test]
fn a_refused_registration_uses_no_id() {
    let mut g = PaymentGateway::new();
    let bad = g.register_payment_method(
        who(1),
        "card".to_string(),
        "Visa".to_string(),
        "4111111111111112".to_string(),
        "EGP".to_string(),
        5,
    );
    assert_eq!(bad, Err(PaymentError::InvalidAccount));
    assert_eq!(card(&mut g, who(1), 6), 1);
}

#[test]
fn can_pay_with_own_active_methods_only() {
    let mut g = PaymentGateway::new();
    let a = card(&mut g, who(1), 1);
    assert!(g.can_pay_with(a, who(1)));
    assert!(!g.can_pay_with(a, who(2)));
    assert!(!g.can_pay_with(a + 1, who(1)));
    g.deactivate_payment_method(who(1), a).unwrap();
    assert!(!g.can_pay_with(a, who(1)));
}
