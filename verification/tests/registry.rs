use noten::{Identity, LedgerError, RoleRegistry};
use std::collections::HashSet;

fn member(n: u8) -> Identity {
    Identity::account([n; 32])
}

fn members_of(registry: &RoleRegistry) -> HashSet<Identity> {
    registry.members().into_iter().collect()
}

#[test]
fn bootstrap_is_the_only_member() {
    let mut registry = RoleRegistry::new();
    assert!(!registry.initialized());
    assert!(!registry.is_member(member(1)));
    assert_eq!(registry.member_count(), 0);
    assert_eq!(registry.initialize(member(1)), Ok(()));
    assert!(registry.initialized());
    assert!(registry.is_member(member(1)));
    assert!(!registry.is_member(member(2)));
    assert_eq!(registry.member_count(), 1);
    assert_eq!(registry.members(), vec![member(1)]);
}

#[test]
fn initializing_twice_is_refused() {
    let mut registry = RoleRegistry::new();
    registry.initialize(member(1)).unwrap();
    let before = registry.clone();
    assert_eq!(registry.initialize(member(2)), Err(LedgerError::AlreadyInitialized));
    assert_eq!(registry, before);
    assert_eq!(registry.initialize(member(1)), Err(LedgerError::AlreadyInitialized));
    assert_eq!(registry, before);
    // also when nobody is left
    registry.revoke(member(1), member(1)).unwrap();
    assert_eq!(registry.member_count(), 0);
    assert_eq!(registry.initialize(member(1)), Err(LedgerError::AlreadyInitialized));
    assert_eq!(registry.member_count(), 0);
}

#[test]
fn only_members_grant_and_revoke() {
    let mut registry = RoleRegistry::new();
    assert_eq!(registry.grant(member(1), member(1)), Err(LedgerError::Unauthorized));
    registry.initialize(member(1)).unwrap();
    let before = registry.clone();
    assert_eq!(registry.grant(member(2), member(2)), Err(LedgerError::Unauthorized));
    assert_eq!(registry, before);
    assert_eq!(registry.revoke(member(2), member(1)), Err(LedgerError::Unauthorized));
    assert_eq!(registry, before);
    assert_eq!(registry.grant(member(1), member(2)), Ok(()));
    assert_eq!(registry.revoke(member(2), member(1)), Ok(()));
    assert!(!registry.is_member(member(1)));
    assert!(registry.is_member(member(2)));
}

#[test]
fn granting_a_member_and_revoking_a_stranger_change_nothing() {
    let mut registry = RoleRegistry::new();
    registry.initialize(member(1)).unwrap();
    registry.grant(member(1), member(2)).unwrap();
    let before = registry.clone();
    assert_eq!(registry.grant(member(1), member(2)), Ok(()));
    assert_eq!(registry, before);
    assert_eq!(registry.grant(member(2), member(2)), Ok(()));
    assert_eq!(registry, before);
    assert_eq!(registry.revoke(member(1), member(3)), Ok(()));
    assert_eq!(registry, before);
    assert_eq!(registry.member_count(), 2);
}

#[test]
fn members_follow_a_plain_set() {
    // (caller, grant?, target); every caller is a member when it calls
    let calls: [(u8, bool, u8); 12] = [
        (1, true, 2),
        (2, true, 3),
        (3, true, 3),
        (3, false, 1),
        (2, false, 9),
        (2, true, 4),
        (4, false, 2),
        (4, true, 1),
        (1, false, 3),
        (1, true, 5),
        (5, false, 5),
        (4, false, 4),
    ];
    let mut registry = RoleRegistry::new();
    registry.initialize(member(1)).unwrap();
    let mut plain: HashSet<Identity> = HashSet::new();
    plain.insert(member(1));
    for (caller, grant, target) in calls {
        assert!(plain.contains(&member(caller)));
        if grant {
            assert_eq!(registry.grant(member(caller), member(target)), Ok(()));
            plain.insert(member(target));
        } else {
            assert_eq!(registry.revoke(member(caller), member(target)), Ok(()));
            plain.remove(&member(target));
        }
        assert_eq!(members_of(&registry), plain);
        assert_eq!(registry.member_count(), plain.len());
        for n in 0..12 {
            assert_eq!(registry.is_member(member(n)), plain.contains(&member(n)));
        }
    }
    let left: HashSet<Identity> = [member(1)].into_iter().collect();
    assert_eq!(members_of(&registry), left);
}

#[test]
fn identities_compare_by_kind_and_address() {
    let mut addr = [7u8; 32];
    let a = Identity::account(addr);
    assert_eq!(a, Identity::account([7u8; 32]));
    assert_ne!(a, Identity::contract(addr));
    addr[31] = 8;
    assert_ne!(a, Identity::account(addr));
    addr[31] = 7;
    addr[0] = 6;
    assert_ne!(a, Identity::account(addr));
    assert_eq!(Identity::contract(addr), Identity::contract(addr));
}
