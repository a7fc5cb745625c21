use candid::Principal;
use fundverse::access::{AccessControl, AdminError, Role};
use fundverse::identity::PrincipalSet;

fn who(n: u8) -> Principal {
    Principal::from_slice(&[n, 1, 2, 3])
}

fn fresh() -> AccessControl {
    let mut acl = AccessControl::new();
    acl.init(who(1), 10);
    acl
}

#[test]
fn principal_set_insert_remove() {
    let mut s = PrincipalSet::new();
    assert_eq!(s.len(), 0);
    assert!(s.insert(who(1)));
    assert!(!s.insert(who(1)));
    assert!(s.insert(who(2)));
    assert_eq!(s.len(), 2);
    assert!(s.contains(&who(1)));
    assert!(!s.contains(&who(3)));
    assert!(s.remove(&who(1)));
    assert!(!s.remove(&who(1)));
    assert_eq!(s.len(), 1);
    assert!(!s.contains(&who(1)));
    assert!(s.contains(&who(2)));
}

#[test]
fn empty_state_knows_nobody() {
    let acl = AccessControl::new();
    assert!(!acl.is_admin(who(1)));
    assert_eq!(acl.get_user_role(who(1)), Role::User);
    assert!(acl.get_users().is_empty());
}

#[test]
fn installer_becomes_admin() {
    let acl = fresh();
    assert!(acl.is_admin(who(1)));
    assert_eq!(acl.get_user_role(who(1)), Role::Admin);
    assert_eq!(acl.get_my_role(who(1)), Role::Admin);
    let users = acl.get_users();
    assert_eq!(users.len(), 1);
    assert_eq!(users[0].principal, who(1));
    assert_eq!(users[0].name, "Deployer");
    assert_eq!(users[0].email, "");
    assert_eq!(users[0].role, Role::Admin);
    assert_eq!(users[0].registered_at_ns, 10);
}

#[test]
fn ensure_admin_tells_admins_from_others() {
    let acl = fresh();
    assert!(acl.ensure_admin(who(1)).is_ok());
    assert!(matches!(acl.ensure_admin(who(2)), Err(AdminError::NotAuthorized)));
}

#[test]
fn ensure_admin_or_innovator_refuses_plain_users() {
    let mut acl = fresh();
    acl.add_innovator(who(1), who(2), 11).unwrap();
    assert!(acl.ensure_admin_or_innovator(who(1)).is_ok());
    assert!(acl.ensure_admin_or_innovator(who(2)).is_ok());
    assert!(matches!(
        acl.ensure_admin_or_innovator(who(3)),
        Err(AdminError::InsufficientPermissions)
    ));
}

#[test]
fn register_user_creates_then_updates() {
    let mut acl = fresh();
    let u = acl.register_user(who(2), "Ann".to_string(), "ann@x.org".to_string(), 20);
    assert_eq!(u.principal, who(2));
    assert_eq!(u.name, "Ann");
    assert_eq!(u.email, "ann@x.org");
    assert_eq!(u.role, Role::User);
    assert_eq!(u.registered_at_ns, 20);
    let u = acl.register_user(who(2), "Anna".to_string(), "anna@x.org".to_string(), 30);
    assert_eq!(u.name, "Anna");
    assert_eq!(u.email, "anna@x.org");
    assert_eq!(u.role, Role::User);
    assert_eq!(u.registered_at_ns, 20);
    let users = acl.get_users();
    assert_eq!(users.len(), 2);
    assert_eq!(users[1].name, "Anna");
}

#[test]
fn register_user_keeps_admin_role() {
    let mut acl = fresh();
    let u = acl.register_user(who(1), "Root".to_string(), "r@x.org".to_string(), 30);
    assert_eq!(u.role, Role::Admin);
    assert_eq!(u.registered_at_ns, 10);
    assert_eq!(u.name, "Root");
}

#[test]
fn non_admin_cannot_add_admin() {
    let mut acl = fresh();
    let r = acl.add_admin(who(2), who(3), 11);
    assert!(matches!(r, Err(AdminError::NotAuthorized)));
    assert!(!acl.is_admin(who(3)));
    assert_eq!(acl.get_users().len(), 1);
}

#[test]
fn add_admin_creates_record_named_admin() {
    let mut acl = fresh();
    acl.add_admin(who(1), who(2), 11).unwrap();
    assert!(acl.is_admin(who(2)));
    let users = acl.get_users();
    assert_eq!(users.len(), 2);
    assert_eq!(users[1].principal, who(2));
    assert_eq!(users[1].name, "Admin");
    assert_eq!(users[1].email, "");
    assert_eq!(users[1].role, Role::Admin);
    assert_eq!(users[1].registered_at_ns, 11);
}

#[test]
fn add_admin_promotes_existing_user() {
    let mut acl = fresh();
    acl.register_user(who(2), "Ann".to_string(), "a@x.org".to_string(), 20);
    acl.add_admin(who(1), who(2), 21).unwrap();
    let users = acl.get_users();
    assert_eq!(users.len(), 2);
    assert_eq!(users[1].name, "Ann");
    assert_eq!(users[1].role, Role::Admin);
    assert_eq!(users[1].registered_at_ns, 20);
}

#[test]
fn sole_admin_is_last_admin() {
    let mut acl = fresh();
    assert!(acl.is_last_admin(who(1)));
    assert!(!acl.is_last_admin(who(2)));
    acl.add_admin(who(1), who(2), 11).unwrap();
    assert!(!acl.is_last_admin(who(1)));
    assert!(!acl.is_last_admin(who(2)));
}

#[test]
fn remove_admin_needs_an_admin_caller() {
    let mut acl = fresh();
    acl.add_admin(who(1), who(2), 11).unwrap();
    let r = acl.remove_admin(who(3), who(2));
    assert!(matches!(r, Err(AdminError::NotAuthorized)));
    assert!(acl.is_admin(who(2)));
}

#[test]
fn remove_admin_demotes_to_user() {
    let mut acl = fresh();
    acl.add_admin(who(1), who(2), 11).unwrap();
    acl.remove_admin(who(1), who(2)).unwrap();
    assert!(!acl.is_admin(who(2)));
    assert_eq!(acl.get_user_role(who(2)), Role::User);
    assert_eq!(acl.get_users()[1].role, Role::User);
    assert!(acl.is_admin(who(1)));
    assert!(acl.is_last_admin(who(1)));
}

#[test]
fn remove_admin_of_a_non_admin_changes_nothing() {
    let mut acl = fresh();
    acl.register_user(who(2), "Ann".to_string(), "a@x.org".to_string(), 20);
    acl.remove_admin(who(1), who(2)).unwrap();
    assert_eq!(acl.get_users()[1].role, Role::User);
    assert!(acl.is_admin(who(1)));
}

#[test]
fn removed_admin_who_is_innovator_shows_innovator() {
    let mut acl = fresh();
    acl.add_innovator(who(1), who(2), 11).unwrap();
    acl.add_admin(who(1), who(2), 12).unwrap();
    assert_eq!(acl.get_user_role(who(2)), Role::Admin);
    assert_eq!(acl.get_users()[1].role, Role::Admin);
    acl.remove_admin(who(1), who(2)).unwrap();
    assert_eq!(acl.get_user_role(who(2)), Role::Innovator);
    assert_eq!(acl.get_users()[1].role, Role::Innovator);
}

#[test]
fn set_role_moves_between_sets() {
    let mut acl = fresh();
    acl.register_user(who(2), "Ann".to_string(), "a@x.org".to_string(), 20);
    acl.set_role(who(1), who(2), Role::Innovator).unwrap();
    assert!(acl.is_innovator(who(2)));
    assert!(acl.is_innovator_check(who(2)));
    assert!(!acl.is_admin(who(2)));
    assert_eq!(acl.get_users()[1].role, Role::Innovator);
    acl.set_role(who(1), who(2), Role::Admin).unwrap();
    assert!(!acl.is_innovator(who(2)));
    assert!(acl.is_admin(who(2)));
    assert_eq!(acl.get_users()[1].role, Role::Admin);
    acl.set_role(who(1), who(2), Role::User).unwrap();
    assert!(!acl.is_innovator(who(2)));
    assert!(!acl.is_admin(who(2)));
    assert_eq!(acl.get_users()[1].role, Role::User);
    assert_eq!(acl.get_user_role(who(2)), Role::User);
}

#[test]
fn set_role_errors() {
    let mut acl = fresh();
    assert!(matches!(
        acl.set_role(who(2), who(1), Role::User),
        Err(AdminError::NotAuthorized)
    ));
    assert!(matches!(
        acl.set_role(who(1), who(9), Role::Innovator),
        Err(AdminError::UserNotFound)
    ));
    assert!(acl.is_admin(who(1)));
    assert!(!acl.is_innovator(who(9)));
}

#[test]
fn add_and_remove_innovator() {
    let mut acl = fresh();
    assert!(matches!(
        acl.add_innovator(who(2), who(3), 5),
        Err(AdminError::NotAuthorized)
    ));
    acl.add_innovator(who(1), who(3), 12).unwrap();
    assert!(acl.is_innovator(who(3)));
    let users = acl.get_users();
    assert_eq!(users[1].name, "Innovator");
    assert_eq!(users[1].role, Role::Innovator);
    assert_eq!(users[1].registered_at_ns, 12);
    let listed = acl.get_innovators();
    assert_eq!(listed.len(), 1);
    assert_eq!(listed[0].principal, who(3));
    assert!(matches!(
        acl.remove_innovator(who(3), who(3)),
        Err(AdminError::NotAuthorized)
    ));
    acl.remove_innovator(who(1), who(3)).unwrap();
    assert!(!acl.is_innovator(who(3)));
    assert_eq!(acl.get_users()[1].role, Role::User);
    assert!(acl.get_innovators().is_empty());
}

#[test]
fn admin_made_innovator_still_shows_admin() {
    let mut acl = fresh();
    acl.add_innovator(who(1), who(1), 12).unwrap();
    assert!(acl.is_innovator(who(1)));
    assert_eq!(acl.get_user_role(who(1)), Role::Admin);
    assert_eq!(acl.get_users()[0].role, Role::Admin);
    assert!(acl.get_innovators().is_empty());
    acl.remove_innovator(who(1), who(1)).unwrap();
    assert_eq!(acl.get_users()[0].role, Role::Admin);
}

#[test]
fn admin_set_never_empties_over_a_run() {
    let mut acl = fresh();
    let steps: Vec<(u8, u8)> = vec![(0, 2), (1, 1), (0, 3), (1, 2), (2, 3), (1, 3), (0, 1)];
    let mut admins: Vec<u8> = vec![1];
    for (op, target) in steps {
        let caller = who(admins[0]);
        let p = who(target);
        match op {
            0 => {
                acl.add_admin(caller, p, 1).unwrap();
                if !admins.contains(&target) {
                    admins.push(target);
                }
            }
            1 => {
                if !acl.is_last_admin(p) {
                    acl.remove_admin(caller, p).unwrap();
                    admins.retain(|a| *a != target);
                }
            }
            _ => {
                if !acl.is_last_admin(p) {
                    acl.set_role(caller, p, Role::User).unwrap();
                    admins.retain(|a| *a != target);
                }
            }
        }
        assert!(!admins.is_empty());
        for a in 1..=3u8 {
            assert_eq!(acl.is_admin(who(a)), admins.contains(&a));
        }
    }
}

#[test]
fn state_survives_saving_and_restoring() {
    let mut acl = fresh();
    acl.register_user(who(2), "Ann".to_string(), "a@x.org".to_string(), 20);
    acl.add_innovator(who(1), who(3), 21).unwrap();
    acl.add_admin(who(1), who(4), 22).unwrap();
    let back = AccessControl::restore(acl.admins(), acl.innovators(), acl.get_users()).unwrap();
    assert_eq!(back.admins(), vec![who(1), who(4)]);
    assert_eq!(back.innovators(), vec![who(3)]);
    let (a, b) = (acl.get_users(), back.get_users());
    assert_eq!(a.len(), b.len());
    for (x, y) in a.iter().zip(b.iter()) {
        assert_eq!(x.principal, y.principal);
        assert_eq!(x.name, y.name);
        assert_eq!(x.email, y.email);
        assert_eq!(x.role, y.role);
        assert_eq!(x.registered_at_ns, y.registered_at_ns);
    }
}

#[test]
fn restore_takes_roles_from_the_sets() {
    let mut stale = fresh().get_users();
    stale[0].role = Role::Innovator;
    let back = AccessControl::restore(vec![who(1), who(1)], vec![], stale).unwrap();
    assert_eq!(back.get_users()[0].role, Role::Admin);
    assert_eq!(back.admins(), vec![who(1)]);
    assert!(back.is_last_admin(who(1)));
}

#[test]
fn restore_refuses_two_records_for_one_principal() {
    let mut users = fresh().get_users();
    users.push(users[0].clone());
    assert!(AccessControl::restore(vec![who(1)], vec![], users).is_none());
    assert!(AccessControl::restore(vec![], vec![], vec![]).is_some());
}

#[test]
fn requests_against_the_sole_admin_are_fatal() {
    let mut acl = fresh();
    assert!(acl.removal_is_fatal(who(1), who(1)));
    assert!(acl.demotion_is_fatal(who(1), who(1), Role::User));
    assert!(acl.demotion_is_fatal(who(1), who(1), Role::Innovator));
    assert!(!acl.demotion_is_fatal(who(1), who(1), Role::Admin));
    // a caller who is no admin is refused, not aborted
    assert!(!acl.removal_is_fatal(who(2), who(1)));
    assert!(!acl.demotion_is_fatal(who(2), who(1), Role::User));
    assert!(!acl.removal_is_fatal(who(1), who(2)));
    acl.add_admin(who(1), who(2), 11).unwrap();
    assert!(!acl.removal_is_fatal(who(1), who(1)));
    assert!(!acl.removal_is_fatal(who(2), who(1)));
    assert!(!acl.demotion_is_fatal(who(2), who(1), Role::User));
    acl.remove_admin(who(2), who(1)).unwrap();
    assert!(acl.removal_is_fatal(who(2), who(2)));
    assert!(acl.is_admin(who(2)));
    assert_eq!(acl.get_users()[1].role, Role::Admin);
}

#[test]
fn demotion_without_a_record_is_an_error_not_fatal() {
    let acl = AccessControl::restore(vec![who(1)], vec![], vec![]).unwrap();
    assert!(!acl.demotion_is_fatal(who(1), who(1), Role::User));
    assert!(acl.removal_is_fatal(who(1), who(1)));
}
