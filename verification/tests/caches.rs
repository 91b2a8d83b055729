use staking_keeper::accounts::{LockedStake, Staking, UserStaking};
use staking_keeper::caches::{
    checked_next_resolve_time, compute_next_resolve_time, compute_oldest_claim_time, update_claim_cache,
    update_claim_cache_for_account, update_finalize_locked_stakes_cache,
    update_finalize_locked_stakes_cache_for_account, update_staking_round_next_resolve_time_cache,
    update_staking_round_next_resolve_time_cache_for_account,
};
use staking_keeper::keyed_map::KeyedMap;
use staking_keeper::pubkey::Pubkey;

fn key(n: u8) -> Pubkey {
    Pubkey([n; 32])
}

fn stake(id: u64, amount: u64, claim_time: i64, end_time: i64) -> LockedStake {
    LockedStake { id, amount, claim_time, end_time }
}

#[test]
fn oldest_claim_time_skips_empty_stakes() {
    let stakes = vec![stake(1, 5, 300, 0), stake(2, 0, 100, 0), stake(3, 7, 200, 0)];
    assert_eq!(compute_oldest_claim_time(&stakes), Some(200));
}

#[test]
fn oldest_claim_time_of_no_active_stake_is_none() {
    assert_eq!(compute_oldest_claim_time(&vec![]), None);
    assert_eq!(compute_oldest_claim_time(&vec![stake(1, 0, 5, 0), stake(2, 0, 1, 0)]), None);
}

#[test]
fn oldest_claim_time_handles_ties_and_negative_times() {
    let stakes = vec![stake(1, 1, -5, 0), stake(2, 1, -5, 0), stake(3, 1, 7, 0)];
    assert_eq!(compute_oldest_claim_time(&stakes), Some(-5));
}

#[test]
fn claim_cache_entry_follows_the_account() {
    let mut cache: KeyedMap<Pubkey, Option<i64>> = KeyedMap::new();
    let account = UserStaking { staking_type: 1, locked_stakes: vec![stake(1, 3, 50, 0)] };
    update_claim_cache_for_account(&mut cache, key(1), &account);
    assert_eq!(cache.get(&key(1)), Some(&Some(50)));
    let emptied = UserStaking { staking_type: 1, locked_stakes: vec![stake(1, 0, 50, 0)] };
    update_claim_cache_for_account(&mut cache, key(1), &emptied);
    assert_eq!(cache.get(&key(1)), Some(&None));
}

#[test]
fn claim_cache_covers_every_indexed_account_and_keeps_others() {
    let mut index: KeyedMap<Pubkey, UserStaking> = KeyedMap::new();
    index.insert(key(1), UserStaking { staking_type: 1, locked_stakes: vec![stake(1, 1, 10, 0)] });
    index.insert(key(2), UserStaking { staking_type: 2, locked_stakes: vec![stake(1, 1, 30, 0), stake(2, 1, 20, 0)] });
    let mut cache: KeyedMap<Pubkey, Option<i64>> = KeyedMap::new();
    cache.insert(key(1), Some(999));
    cache.insert(key(9), Some(1));
    update_claim_cache(&mut cache, &index);
    assert_eq!(cache.get(&key(1)), Some(&Some(10)));
    assert_eq!(cache.get(&key(2)), Some(&Some(20)));
    assert_eq!(cache.get(&key(9)), Some(&Some(1)));
    assert_eq!(cache.entry_count(), 3);
}

#[test]
fn finalize_cache_records_active_stakes_only() {
    let mut cache: KeyedMap<Pubkey, KeyedMap<u64, i64>> = KeyedMap::new();
    let account = UserStaking {
        staking_type: 1,
        locked_stakes: vec![stake(4, 1, 0, 400), stake(5, 0, 0, 500), stake(6, 2, 0, 600)],
    };
    update_finalize_locked_stakes_cache_for_account(&mut cache, &key(1), &account);
    let entry = cache.get(&key(1)).unwrap();
    assert_eq!(entry.get(&4), Some(&400));
    assert_eq!(entry.get(&5), None);
    assert_eq!(entry.get(&6), Some(&600));
    assert_eq!(entry.entry_count(), 2);
}

#[test]
fn finalize_cache_leaves_no_entry_for_an_account_without_active_stakes() {
    let mut cache: KeyedMap<Pubkey, KeyedMap<u64, i64>> = KeyedMap::new();
    let account = UserStaking { staking_type: 1, locked_stakes: vec![stake(4, 0, 0, 400)] };
    update_finalize_locked_stakes_cache_for_account(&mut cache, &key(1), &account);
    assert!(!cache.contains_key(&key(1)));
}

#[test]
fn finalize_cache_merges_into_existing_entry_and_last_duplicate_wins() {
    let mut cache: KeyedMap<Pubkey, KeyedMap<u64, i64>> = KeyedMap::new();
    let mut existing: KeyedMap<u64, i64> = KeyedMap::new();
    existing.insert(1, 100);
    existing.insert(2, 200);
    cache.insert(key(1), existing);
    let account = UserStaking {
        staking_type: 1,
        locked_stakes: vec![stake(2, 1, 0, 250), stake(3, 1, 0, 300), stake(2, 1, 0, 275)],
    };
    update_finalize_locked_stakes_cache_for_account(&mut cache, &key(1), &account);
    let entry = cache.get(&key(1)).unwrap();
    assert_eq!(entry.get(&1), Some(&100));
    assert_eq!(entry.get(&2), Some(&275));
    assert_eq!(entry.get(&3), Some(&300));
}

#[test]
fn finalize_cache_for_all_accounts() {
    let mut index: KeyedMap<Pubkey, UserStaking> = KeyedMap::new();
    index.insert(key(1), UserStaking { staking_type: 1, locked_stakes: vec![stake(1, 1, 0, 10)] });
    index.insert(key(2), UserStaking { staking_type: 1, locked_stakes: vec![stake(1, 0, 0, 20)] });
    let mut cache: KeyedMap<Pubkey, KeyedMap<u64, i64>> = KeyedMap::new();
    update_finalize_locked_stakes_cache(&mut cache, &index);
    assert_eq!(cache.get(&key(1)).unwrap().get(&1), Some(&10));
    assert!(!cache.contains_key(&key(2)));
}

#[test]
fn next_resolve_time_is_now_once_the_round_is_long_enough() {
    assert_eq!(compute_next_resolve_time(1_000, 0, 600), 1_000);
    assert_eq!(compute_next_resolve_time(600, 0, 600), 600);
}

#[test]
fn next_resolve_time_is_the_round_end_before_that() {
    assert_eq!(compute_next_resolve_time(100, 0, 600), 600);
    assert_eq!(compute_next_resolve_time(599, 0, 600), 600);
    assert_eq!(compute_next_resolve_time(-50, -100, 21_600), 21_500);
}

#[test]
fn next_resolve_time_is_never_before_now() {
    for now in [0i64, 10, 599, 600, 601, 10_000] {
        for start in [-1_000i64, 0, 300, 900] {
            let next = compute_next_resolve_time(now, start, 600);
            assert!(next >= now);
            assert!(next >= start + 600);
        }
    }
}

#[test]
fn resolve_time_cache_records_now_for_a_long_round() {
    let mut cache: KeyedMap<Pubkey, i64> = KeyedMap::new();
    let round = Staking { current_round_start_time: 1_000 };
    assert!(update_staking_round_next_resolve_time_cache_for_account(&mut cache, &key(1), &round, 21_600, 100_000));
    assert_eq!(cache.get(&key(1)), Some(&100_000));
}

#[test]
fn resolve_time_cache_records_round_end_for_a_young_round() {
    let mut cache: KeyedMap<Pubkey, i64> = KeyedMap::new();
    let round = Staking { current_round_start_time: 1_000 };
    assert!(update_staking_round_next_resolve_time_cache_for_account(&mut cache, &key(2), &round, 21_600, 2_000));
    assert_eq!(cache.get(&key(2)), Some(&22_600));
}

#[test]
fn resolve_time_that_does_not_fit_leaves_the_cache_alone() {
    let mut cache: KeyedMap<Pubkey, i64> = KeyedMap::new();
    cache.insert(key(1), 42);
    let round = Staking { current_round_start_time: i64::MAX - 10 };
    assert!(!update_staking_round_next_resolve_time_cache_for_account(&mut cache, &key(1), &round, 21_600, 1_700_000_000));
    assert_eq!(cache.get(&key(1)), Some(&42));
    let far_past = Staking { current_round_start_time: i64::MIN + 5 };
    assert!(!update_staking_round_next_resolve_time_cache_for_account(&mut cache, &key(1), &far_past, 21_600, 1_700_000_000));
    assert_eq!(cache.get(&key(1)), Some(&42));
}

#[test]
fn checked_resolve_time_reports_overflow() {
    assert_eq!(checked_next_resolve_time(1_000, 0, 600), Some(1_000));
    assert_eq!(checked_next_resolve_time(100, 0, 600), Some(600));
    assert_eq!(checked_next_resolve_time(100, i64::MAX - 10, 600), None);
    assert_eq!(checked_next_resolve_time(i64::MAX, -1, 600), None);
}

#[test]
fn resolve_time_cache_for_all_accounts() {
    let mut index: KeyedMap<Pubkey, Staking> = KeyedMap::new();
    let now = 1_700_000_000i64;
    index.insert(key(1), Staking { current_round_start_time: now + 5_000 });
    index.insert(key(2), Staking { current_round_start_time: now - 5_000 });
    let mut cache: KeyedMap<Pubkey, i64> = KeyedMap::new();
    cache.insert(key(3), 7);
    assert!(update_staking_round_next_resolve_time_cache(&mut cache, &index, 60, now));
    assert_eq!(cache.get(&key(1)), Some(&(now + 5_060)));
    assert_eq!(cache.get(&key(2)), Some(&now));
    assert_eq!(cache.get(&key(3)), Some(&7));
}

#[test]
fn resolve_time_cache_for_all_accounts_reports_overflow() {
    let mut index: KeyedMap<Pubkey, Staking> = KeyedMap::new();
    index.insert(key(1), Staking { current_round_start_time: 10 });
    index.insert(key(2), Staking { current_round_start_time: i64::MAX });
    let mut cache: KeyedMap<Pubkey, i64> = KeyedMap::new();
    assert!(!update_staking_round_next_resolve_time_cache(&mut cache, &index, 60, 20));
    assert_eq!(cache.get(&key(1)), Some(&70));
    assert_eq!(cache.get(&key(2)), None);
}

#[test]
fn adding_a_live_stake_never_raises_the_oldest_claim_time() {
    let mut stakes = vec![stake(1, 5, 300, 0)];
    assert_eq!(compute_oldest_claim_time(&stakes), Some(300));
    stakes.push(stake(2, 1, 400, 0));
    assert_eq!(compute_oldest_claim_time(&stakes), Some(300));
    stakes.push(stake(3, 1, 250, 0));
    assert_eq!(compute_oldest_claim_time(&stakes), Some(250));
}

#[test]
fn claim_cache_refresh_does_not_depend_on_entry_order() {
    let a = UserStaking { staking_type: 1, locked_stakes: vec![stake(1, 1, 10, 0)] };
    let b = UserStaking { staking_type: 1, locked_stakes: vec![stake(1, 1, 20, 0)] };
    let mut forward: KeyedMap<Pubkey, UserStaking> = KeyedMap::new();
    forward.insert(key(1), a.clone());
    forward.insert(key(2), b.clone());
    let mut backward: KeyedMap<Pubkey, UserStaking> = KeyedMap::new();
    backward.insert(key(2), b);
    backward.insert(key(1), a);
    let mut first: KeyedMap<Pubkey, Option<i64>> = KeyedMap::new();
    let mut second: KeyedMap<Pubkey, Option<i64>> = KeyedMap::new();
    update_claim_cache(&mut first, &forward);
    update_claim_cache(&mut second, &backward);
    for k in [key(1), key(2)] {
        assert_eq!(first.get(&k), second.get(&k));
    }
}
