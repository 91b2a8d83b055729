use staking_keeper::accounts::{
    update_indexed_staking_accounts, update_indexed_user_staking_accounts, IndexError,
    LockedStake, Staking, StakingAccountUpdate, UserStaking, UserStakingAccountUpdate,
};
use staking_keeper::keyed_map::KeyedMap;
use staking_keeper::pubkey::Pubkey;

fn key(n: u8) -> Pubkey {
    Pubkey([n; 32])
}

fn stake(id: u64, amount: u64, claim_time: i64, end_time: i64) -> LockedStake {
    LockedStake { id, amount, claim_time, end_time }
}

#[test]
fn keyed_map_reads_back_what_was_written() {
    let mut map: KeyedMap<Pubkey, i64> = KeyedMap::new();
    assert_eq!(map.get(&key(1)), None);
    assert_eq!(map.insert(key(1), 10), None);
    assert_eq!(map.insert(key(2), 20), None);
    assert_eq!(map.get(&key(1)), Some(&10));
    assert_eq!(map.insert(key(1), 11), Some(10));
    assert_eq!(map.get(&key(1)), Some(&11));
    assert_eq!(map.get(&key(2)), Some(&20));
    assert_eq!(map.entry_count(), 2);
    assert_eq!(map.remove(&key(1)), Some(11));
    assert_eq!(map.remove(&key(1)), None);
    assert!(!map.contains_key(&key(1)));
    assert!(map.contains_key(&key(2)));
    assert_eq!(map.keys(), vec![key(2)]);
}

#[test]
fn keyed_map_keys_differing_in_one_byte_are_distinct() {
    let mut map: KeyedMap<Pubkey, u8> = KeyedMap::new();
    let a = key(7);
    let mut b_bytes = [7u8; 32];
    b_bytes[31] = 8;
    let b = Pubkey(b_bytes);
    map.insert(a, 1);
    map.insert(b, 2);
    assert_eq!(map.entry_count(), 2);
    assert_eq!(map.get(&a), Some(&1));
    assert_eq!(map.get(&b), Some(&2));
}

#[test]
fn staking_account_is_created_then_modified_then_closed() {
    let mut index: KeyedMap<Pubkey, Staking> = KeyedMap::new();
    let first = Staking { current_round_start_time: 100 };
    let second = Staking { current_round_start_time: 200 };

    let update = update_indexed_staking_accounts(&key(1), &[1, 2, 3], Some(first), &mut index);
    assert!(matches!(update, Ok(StakingAccountUpdate::Created(s)) if s == first));
    assert_eq!(index.get(&key(1)), Some(&first));

    let update = update_indexed_staking_accounts(&key(1), &[1, 2, 3], Some(second), &mut index);
    assert!(matches!(update, Ok(StakingAccountUpdate::Modified(s)) if s == second));
    assert_eq!(index.get(&key(1)), Some(&second));

    let update = update_indexed_staking_accounts(&key(1), &[], None, &mut index);
    assert!(matches!(update, Ok(StakingAccountUpdate::Closed)));
    assert_eq!(index.get(&key(1)), None);
}

#[test]
fn undecodable_staking_account_is_an_error_and_changes_nothing() {
    let mut index: KeyedMap<Pubkey, Staking> = KeyedMap::new();
    index.insert(key(1), Staking { current_round_start_time: 5 });
    let update = update_indexed_staking_accounts(&key(1), &[9], None, &mut index);
    assert!(matches!(update, Err(IndexError::UndecodableAccount)));
    assert_eq!(index.get(&key(1)), Some(&Staking { current_round_start_time: 5 }));
}

#[test]
fn closing_an_unknown_staking_account_reports_closed() {
    let mut index: KeyedMap<Pubkey, Staking> = KeyedMap::new();
    let update = update_indexed_staking_accounts(&key(3), &[], None, &mut index);
    assert!(matches!(update, Ok(StakingAccountUpdate::Closed)));
    assert_eq!(index.entry_count(), 0);
}

#[test]
fn user_staking_account_lifecycle() {
    let mut index: KeyedMap<Pubkey, UserStaking> = KeyedMap::new();
    let account = UserStaking { staking_type: 1, locked_stakes: vec![stake(1, 5, 10, 20)] };

    let update =
        update_indexed_user_staking_accounts(&key(1), &[1], Some(account.clone()), &mut index);
    assert!(matches!(update, Ok(UserStakingAccountUpdate::Created(ref a)) if *a == account));
    assert_eq!(index.get(&key(1)), Some(&account));

    let changed = UserStaking { staking_type: 1, locked_stakes: vec![] };
    let update =
        update_indexed_user_staking_accounts(&key(1), &[1], Some(changed.clone()), &mut index);
    assert!(matches!(update, Ok(UserStakingAccountUpdate::Modified(ref a)) if *a == changed));
    assert_eq!(index.get(&key(1)), Some(&changed));

    let update = update_indexed_user_staking_accounts(&key(1), &[], None, &mut index);
    assert!(matches!(update, Ok(UserStakingAccountUpdate::Closed)));
    assert_eq!(index.get(&key(1)), None);
}

#[test]
fn user_staking_account_without_staking_type_is_not_indexed() {
    let mut index: KeyedMap<Pubkey, UserStaking> = KeyedMap::new();
    let account = UserStaking { staking_type: 0, locked_stakes: vec![stake(1, 5, 10, 20)] };
    let update =
        update_indexed_user_staking_accounts(&key(2), &[1], Some(account.clone()), &mut index);
    assert!(
        matches!(update, Ok(UserStakingAccountUpdate::MissingStakingType(ref a)) if *a == account)
    );
    assert_eq!(index.get(&key(2)), None);
}

#[test]
fn undecodable_user_staking_account_is_an_error() {
    let mut index: KeyedMap<Pubkey, UserStaking> = KeyedMap::new();
    let update = update_indexed_user_staking_accounts(&key(2), &[1], None, &mut index);
    assert!(matches!(update, Err(IndexError::UndecodableAccount)));
    assert_eq!(index.entry_count(), 0);
}
