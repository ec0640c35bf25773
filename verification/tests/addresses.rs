//! Deterministic address derivation.

use spotwin::addr::{
    contest_address, participant_record_address, vault_address, vault_authority_address,
};

#[test]
fn derivation_is_deterministic() {
    let first = participant_record_address(1, 42).unwrap();
    let second = participant_record_address(1, 42).unwrap();
    assert_eq!(first.0, second.0);
    assert_eq!(first.1, second.1);
}

#[test]
fn distinct_players_get_distinct_record_addresses() {
    let a = participant_record_address(1, 42).unwrap();
    let b = participant_record_address(1, 43).unwrap();
    assert_ne!(a.0, b.0);
}

#[test]
fn distinct_contests_get_distinct_record_addresses() {
    let a = participant_record_address(1, 42).unwrap();
    let b = participant_record_address(2, 42).unwrap();
    assert_ne!(a.0, b.0);
}

#[test]
fn address_kinds_are_kept_apart() {
    let contest = contest_address(1).unwrap();
    let vault = vault_address(1).unwrap();
    let authority = vault_authority_address(1).unwrap();
    assert_ne!(contest.0, vault.0);
    assert_ne!(contest.0, authority.0);
    assert_ne!(vault.0, authority.0);
}
