use staking_keeper::accounts::{IndexError, LockedStake, Staking, UserStaking};
use staking_keeper::keyed_map::KeyedMap;
use staking_keeper::pubkey::Pubkey;
use staking_keeper::stream::{has_filter, process_account_update, AccountUpdateOutcome};

fn key(n: u8) -> Pubkey {
    Pubkey([n; 32])
}

struct State {
    staking: KeyedMap<Pubkey, Staking>,
    user_staking: KeyedMap<Pubkey, UserStaking>,
    claim_cache: KeyedMap<Pubkey, Option<i64>>,
    resolve_times: KeyedMap<Pubkey, i64>,
}

impl State {
    fn new() -> State {
        State {
            staking: KeyedMap::new(),
            user_staking: KeyedMap::new(),
            claim_cache: KeyedMap::new(),
            resolve_times: KeyedMap::new(),
        }
    }

    fn process(
        &mut self,
        filters: &[&str],
        account: Pubkey,
        data: &[u8],
        staking: Option<Staking>,
        user_staking: Option<UserStaking>,
    ) -> Result<AccountUpdateOutcome, IndexError> {
        let filters: Vec<String> = filters.iter().map(|f| f.to_string()).collect();
        process_account_update(
            &filters,
            account,
            data,
            staking,
            user_staking,
            &mut self.staking,
            &mut self.user_staking,
            &mut self.claim_cache,
            &mut self.resolve_times,
            21_600,
            1_700_000_000,
        )
    }
}

fn user(claim_time: i64) -> UserStaking {
    UserStaking {
        staking_type: 1,
        locked_stakes: vec![LockedStake { id: 1, amount: 10, claim_time, end_time: 0 }],
    }
}

#[test]
fn filters_are_matched_by_name() {
    let filters = vec!["a".to_string(), "user_staking_close".to_string()];
    assert!(has_filter(&filters, "user_staking_close"));
    assert!(!has_filter(&filters, "user_staking"));
    assert!(!has_filter(&vec![], "a"));
}

#[test]
fn modified_staking_account_refreshes_its_resolve_time() {
    let mut state = State::new();
    state.staking.insert(key(1), Staking { current_round_start_time: 0 });
    let future = 1_800_000_000i64;
    let outcome = state.process(
        &["staking_create_update"],
        key(1),
        &[1],
        Some(Staking { current_round_start_time: future }),
        None,
    );
    assert_eq!(outcome, Ok(AccountUpdateOutcome::Applied { resubscribe: false }));
    assert_eq!(state.staking.get(&key(1)), Some(&Staking { current_round_start_time: future }));
    assert_eq!(state.resolve_times.get(&key(1)), Some(&(future + 21_600)));
}

#[test]
fn modified_staking_account_with_long_round_resolves_now() {
    let mut state = State::new();
    state.staking.insert(key(1), Staking { current_round_start_time: 0 });
    let outcome = state.process(
        &["staking_create_update"],
        key(1),
        &[1],
        Some(Staking { current_round_start_time: 1_600_000_000 }),
        None,
    );
    assert_eq!(outcome, Ok(AccountUpdateOutcome::Applied { resubscribe: false }));
    assert_eq!(state.resolve_times.get(&key(1)), Some(&1_700_000_000));
}

#[test]
fn staking_account_created_under_update_filter_is_unexpected() {
    let mut state = State::new();
    let outcome = state.process(
        &["staking_create_update", "user_staking_create_update"],
        key(1),
        &[1],
        Some(Staking { current_round_start_time: 5 }),
        Some(user(5)),
    );
    assert_eq!(outcome, Ok(AccountUpdateOutcome::StakingCreatedUnexpectedly));
    assert_eq!(state.user_staking.entry_count(), 0);
}

#[test]
fn staking_account_closed_under_update_filter_is_unexpected() {
    let mut state = State::new();
    state.staking.insert(key(1), Staking { current_round_start_time: 0 });
    let outcome = state.process(&["staking_create_update"], key(1), &[], None, None);
    assert_eq!(outcome, Ok(AccountUpdateOutcome::StakingClosedUnexpectedly));
}

#[test]
fn undecodable_staking_account_is_an_error() {
    let mut state = State::new();
    let outcome = state.process(&["staking_create_update"], key(1), &[1], None, None);
    assert_eq!(outcome, Err(IndexError::UndecodableAccount));
}

#[test]
fn new_user_staking_account_fills_claim_cache_and_resubscribes() {
    let mut state = State::new();
    let outcome =
        state.process(&["user_staking_create_update"], key(2), &[1], None, Some(user(77)));
    assert_eq!(outcome, Ok(AccountUpdateOutcome::Applied { resubscribe: true }));
    assert_eq!(state.user_staking.get(&key(2)), Some(&user(77)));
    assert_eq!(state.claim_cache.get(&key(2)), Some(&Some(77)));
}

#[test]
fn modified_user_staking_account_updates_claim_cache() {
    let mut state = State::new();
    state.process(&["user_staking_create_update"], key(2), &[1], None, Some(user(77))).unwrap();
    let outcome =
        state.process(&["user_staking_create_update"], key(2), &[1], None, Some(user(55)));
    assert_eq!(outcome, Ok(AccountUpdateOutcome::Applied { resubscribe: false }));
    assert_eq!(state.claim_cache.get(&key(2)), Some(&Some(55)));
}

#[test]
fn closed_user_staking_account_leaves_claim_cache_and_resubscribes() {
    let mut state = State::new();
    state.process(&["user_staking_create_update"], key(2), &[1], None, Some(user(77))).unwrap();
    let outcome = state.process(&["user_staking_create_update"], key(2), &[], None, None);
    assert_eq!(outcome, Ok(AccountUpdateOutcome::Applied { resubscribe: true }));
    assert_eq!(state.user_staking.get(&key(2)), None);
    assert_eq!(state.claim_cache.get(&key(2)), None);
}

#[test]
fn user_staking_account_without_type_is_ignored() {
    let mut state = State::new();
    let untyped = UserStaking { staking_type: 0, locked_stakes: vec![] };
    let outcome = state.process(&["user_staking_create_update"], key(2), &[1], None, Some(untyped));
    assert_eq!(outcome, Ok(AccountUpdateOutcome::Applied { resubscribe: false }));
    assert_eq!(state.user_staking.entry_count(), 0);
    assert_eq!(state.claim_cache.entry_count(), 0);
}

#[test]
fn close_filter_expects_closed_accounts() {
    let mut state = State::new();
    state.process(&["user_staking_create_update"], key(2), &[1], None, Some(user(77))).unwrap();
    let outcome = state.process(&["user_staking_close"], key(2), &[], None, None);
    assert_eq!(outcome, Ok(AccountUpdateOutcome::Applied { resubscribe: true }));
    assert_eq!(state.user_staking.get(&key(2)), None);
    // The close filter does not touch the claim cache.
    assert_eq!(state.claim_cache.get(&key(2)), Some(&Some(77)));
}

#[test]
fn close_filter_reports_created_and_modified_accounts() {
    let mut state = State::new();
    let outcome = state.process(&["user_staking_close"], key(2), &[1], None, Some(user(1)));
    assert_eq!(outcome, Ok(AccountUpdateOutcome::UserStakingCreatedUnexpectedly));
    let outcome = state.process(&["user_staking_close"], key(2), &[1], None, Some(user(2)));
    assert_eq!(outcome, Ok(AccountUpdateOutcome::UserStakingModifiedUnexpectedly));
}

#[test]
fn create_update_filter_takes_precedence_over_close_filter() {
    let mut state = State::new();
    let outcome = state.process(
        &["user_staking_close", "user_staking_create_update"],
        key(2),
        &[1],
        None,
        Some(user(3)),
    );
    assert_eq!(outcome, Ok(AccountUpdateOutcome::Applied { resubscribe: true }));
}

#[test]
fn unmatched_filters_change_nothing() {
    let mut state = State::new();
    let outcome = state.process(&["other"], key(2), &[1], None, Some(user(3)));
    assert_eq!(outcome, Ok(AccountUpdateOutcome::Applied { resubscribe: false }));
    assert_eq!(state.user_staking.entry_count(), 0);
}
