use candid::Principal;
use fundverse::spv::Spv;

fn who(n: u8) -> Principal {
    Principal::from_slice(&[n, 6])
}

#[test]
fn fractions_are_bought_at_the_fraction_price() {
    let mut s = Spv::init_spv(100, 1000);
    assert_eq!(s.investor_balance(who(1)), 0);
    assert!(s.can_add(who(1), 2_500));
    s.add_investor(who(1), 2_500).unwrap();
    assert_eq!(s.investor_balance(who(1)), 2);
    s.add_investor(who(2), 999).unwrap();
    assert_eq!(s.investor_balance(who(2)), 0);
    s.add_investor(who(1), 1_000).unwrap();
    assert_eq!(s.investor_balance(who(1)), 3);
    assert_eq!(s.investor_balance(who(3)), 0);
}

#[test]
fn can_add_guards_price_and_balance() {
    let free = Spv::init_spv(100, 0);
    assert!(!free.can_add(who(1), 5));
    let mut s = Spv::init_spv(100, 1);
    s.add_investor(who(1), u64::MAX - 1).unwrap();
    assert!(s.can_add(who(1), 1));
    assert!(!s.can_add(who(1), 2));
    assert!(s.can_add(who(2), u64::MAX));
}

#[test]
fn exit_is_shared_by_fractions() {
    let mut s = Spv::init_spv(10, 100);
    s.add_investor(who(1), 300).unwrap();
    s.add_investor(who(2), 700).unwrap();
    s.add_investor(who(3), 50).unwrap();
    assert!(s.can_distribute(1_005));
    let out = s.distribute_exit(1_005);
    assert_eq!(out.len(), 3);
    assert_eq!(out[0].investor_principal, who(1));
    assert_eq!(out[0].fractions, 301);
    assert_eq!(out[1].investor_principal, who(2));
    assert_eq!(out[1].fractions, 703);
    assert_eq!(out[2].investor_principal, who(3));
    assert_eq!(out[2].fractions, 0);
    assert!(Spv::init_spv(10, 100).distribute_exit(5).is_empty());
}

#[test]
fn can_distribute_guards_supply_and_products() {
    let mut none = Spv::init_spv(0, 1);
    none.add_investor(who(1), 3).unwrap();
    assert!(!none.can_distribute(5));
    let mut s = Spv::init_spv(10, 1);
    s.add_investor(who(1), 3).unwrap();
    assert!(s.can_distribute(u64::MAX / 3));
    assert!(!s.can_distribute(u64::MAX / 3 + 1));
    assert_eq!(s.distribute_exit(u64::MAX / 3)[0].fractions, 1_844_674_407_370_955_161);
}
