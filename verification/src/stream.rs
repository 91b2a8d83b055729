use vstd::prelude::*;

use crate::accounts::{
    staking_index_after, staking_update_kind, update_indexed_staking_accounts,
    update_indexed_user_staking_accounts, user_staking_index_updated, user_staking_update_kind,
    IndexError, Staking, StakingAccountUpdate, UpdateKind, UserStaking, UserStakingAccountUpdate,
};
use crate::caches::{
    lemma_resolve_time_overwrites_any_entry, oldest_claim_time, resolve_time_fits, resolve_times_after,
    update_claim_cache_for_account,
    update_staking_round_next_resolve_time_cache_for_account,
};
use crate::keyed_map::KeyedMap;
use crate::pubkey::Pubkey;

verus! {

/// The subscription filter under which existing `Staking` accounts are updated.
pub open spec fn staking_create_update_filter() -> Seq<char> {
    "staking_create_update"@
}

/// The subscription filter under which `UserStaking` accounts are created and updated.
pub open spec fn user_staking_create_update_filter() -> Seq<char> {
    "user_staking_create_update"@
}

/// The subscription filter under which `UserStaking` accounts are closed.
pub open spec fn user_staking_close_filter() -> Seq<char> {
    "user_staking_close"@
}

/// Whether the filter `name` is among those a message matched.
pub open spec fn lists_filter(filters: Seq<String>, name: Seq<char>) -> bool {
    exists|i: int| 0 <= i < filters.len() && (#[trigger] filters[i])@ == name
}

/// Whether the filter `name` is among `filters`.
pub fn has_filter(filters: &Vec<String>, name: &str) -> (listed: bool)
    ensures
        listed == lists_filter(filters@, name@),
{
    let wanted = name.to_owned();
    let mut i: usize = 0;
    while i < filters.len()
        invariant
            0 <= i <= filters@.len(),
            wanted@ == name@,
            forall|j: int| 0 <= j < i ==> (#[trigger] filters@[j])@ != name@,
        decreases filters@.len() - i,
    {
        if filters[i] == wanted {
            return true;
        }
        i = i + 1;
    }
    false
}

/// What processing an account update came to.
#[derive(Clone, Copy, Debug, PartialEq, Eq)]
pub enum AccountUpdateOutcome {
    /// The update was applied; `resubscribe` says whether the set of watched
    /// accounts changed, so that the subscription must be renewed.
    Applied { resubscribe: bool },
    /// A `Staking` account appeared under the filter for existing ones.
    StakingCreatedUnexpectedly,
    /// A `Staking` account was closed under the filter for updates.
    StakingClosedUnexpectedly,
    /// A `UserStaking` account appeared under the filter for closed ones.
    UserStakingCreatedUnexpectedly,
    /// A `UserStaking` account was modified under the filter for closed ones.
    UserStakingModifiedUnexpectedly,
}

/// Whether the `Staking` part of an update stops the processing.
pub open spec fn staking_part_stops(listed: bool, kind: UpdateKind) -> bool {
    listed && (kind == UpdateKind::Undecodable || kind == UpdateKind::Created || kind
        == UpdateKind::Closed)
}

/// The claim cache after the `UserStaking` part of an update.
pub open spec fn claim_cache_after(
    before: Map<Pubkey, Option<i64>>,
    create_update_listed: bool,
    kind: UpdateKind,
    key: Pubkey,
    decoded: Option<UserStaking>,
) -> Map<Pubkey, Option<i64>> {
    if create_update_listed {
        match kind {
            UpdateKind::Created | UpdateKind::Modified => before.insert(
                key,
                oldest_claim_time(decoded->0.locked_stakes@),
            ),
            UpdateKind::Closed => before.remove(key),
            _ => before,
        }
    } else {
        before
    }
}

/// The outcome of the `UserStaking` part of an update.
pub open spec fn user_staking_outcome(
    create_update_listed: bool,
    close_listed: bool,
    kind: UpdateKind,
) -> Result<AccountUpdateOutcome, IndexError> {
    if create_update_listed {
        match kind {
            UpdateKind::Undecodable => Err(IndexError::UndecodableAccount),
            UpdateKind::Created | UpdateKind::Closed => Ok(
                AccountUpdateOutcome::Applied { resubscribe: true },
            ),
            _ => Ok(AccountUpdateOutcome::Applied { resubscribe: false }),
        }
    } else if close_listed {
        match kind {
            UpdateKind::Undecodable => Err(IndexError::UndecodableAccount),
            UpdateKind::Created => Ok(AccountUpdateOutcome::UserStakingCreatedUnexpectedly),
            UpdateKind::Modified => Ok(AccountUpdateOutcome::UserStakingModifiedUnexpectedly),
            _ => Ok(AccountUpdateOutcome::Applied { resubscribe: true }),
        }
    } else {
        Ok(AccountUpdateOutcome::Applied { resubscribe: false })
    }
}

/// Whether the claim cache holds, for every indexed `UserStaking` account,
/// the claim time of its oldest locked stake.
pub open spec fn claim_cache_follows_index(
    claim_cache: Map<Pubkey, Option<i64>>,
    index: Map<Pubkey, UserStaking>,
) -> bool {
    forall|k: Pubkey|
        #[trigger] index.dom().contains(k) ==> claim_cache.dom().contains(k) && claim_cache[k]
            == oldest_claim_time(index[k].locked_stakes@)
}

/// An update received under `user_staking_create_update` keeps the claim
/// cache in step with the `UserStaking` index.
pub proof fn lemma_create_update_keeps_claim_cache_in_step(
    index_before: Map<Pubkey, UserStaking>,
    index_after: Map<Pubkey, UserStaking>,
    cache_before: Map<Pubkey, Option<i64>>,
    key: Pubkey,
    data: Seq<u8>,
    decoded: Option<UserStaking>,
)
    requires
        claim_cache_follows_index(cache_before, index_before),
        user_staking_index_updated(index_before, index_after, key, data, decoded),
    ensures
        claim_cache_follows_index(
            claim_cache_after(
                cache_before,
                true,
                user_staking_update_kind(data, decoded, index_before.dom().contains(key)),
                key,
                decoded,
            ),
            index_after,
        ),
{
    let kind = user_staking_update_kind(data, decoded, index_before.dom().contains(key));
    let cache_after = claim_cache_after(cache_before, true, kind, key, decoded);
    assert forall|k: Pubkey| #[trigger] index_after.dom().contains(k) implies cache_after.dom().contains(
        k,
    ) && cache_after[k] == oldest_claim_time(index_after[k].locked_stakes@) by {
        if k != key {
            assert(index_after.get(k) == index_before.get(k)) by {
                if kind == UpdateKind::Created || kind == UpdateKind::Modified {
                } else if kind == UpdateKind::Closed {
                    assert(index_after == index_before.remove(key));
                }
            }
            assert(index_before.dom().contains(k));
        }
    }
}

/// Under `user_staking_create_update` the outcome of the `UserStaking` part
/// depends on the kind of update alone, not on whether `user_staking_close`
/// is listed too: a modified account is applied without a new subscription,
/// a created or closed one asks for one, and none is unexpected.
pub proof fn lemma_create_update_filter_overrides_close(kind: UpdateKind, close_listed: bool)
    ensures
        user_staking_outcome(true, close_listed, kind) == user_staking_outcome(true, false, kind),
        kind == UpdateKind::Modified ==> user_staking_outcome(true, close_listed, kind) == Ok::<
            AccountUpdateOutcome,
            IndexError,
        >(AccountUpdateOutcome::Applied { resubscribe: false }),
        kind == UpdateKind::MissingStakingType ==> user_staking_outcome(true, close_listed, kind)
            == Ok::<AccountUpdateOutcome, IndexError>(
            AccountUpdateOutcome::Applied { resubscribe: false },
        ),
        kind == UpdateKind::Created || kind == UpdateKind::Closed ==> user_staking_outcome(
            true,
            close_listed,
            kind,
        ) == Ok::<AccountUpdateOutcome, IndexError>(
            AccountUpdateOutcome::Applied { resubscribe: true },
        ),
        kind == UpdateKind::Undecodable ==> user_staking_outcome(true, close_listed, kind) == Err::<
            AccountUpdateOutcome,
            IndexError,
        >(IndexError::UndecodableAccount),
{
}

/// Applies an account update received from the stream to the indexes and
/// caches, according to the filters that the update matched.
///
/// Under `staking_create_update` the `Staking` index is updated and, for a
/// modified account, the round's resolve time refreshed; a created or closed
/// account stops the processing. Then, under `user_staking_create_update`,
/// the `UserStaking` index is updated, the claim cache follows it, and a
/// created or closed account asks for a new subscription; otherwise, under
/// `user_staking_close`, the index is updated and only a closed account, or
/// one without staking type, is expected, which asks for a new subscription.
/// `decoded_staking` and `decoded_user_staking` are the account data decoded
/// as either kind of account (`None` where it does not decode), and
/// `current_time` the Unix time at which resolve times are computed.
pub fn process_account_update(
    filters: &Vec<String>,
    account_key: Pubkey,
    account_data: &[u8],
    decoded_staking: Option<Staking>,
    decoded_user_staking: Option<UserStaking>,
    indexed_staking_accounts: &mut KeyedMap<Pubkey, Staking>,
    indexed_user_staking_accounts: &mut KeyedMap<Pubkey, UserStaking>,
    claim_cache: &mut KeyedMap<Pubkey, Option<i64>>,
    staking_round_next_resolve_time_cache: &mut KeyedMap<Pubkey, i64>,
    round_min_duration: i64,
    current_time: i64,
) -> (outcome: Result<AccountUpdateOutcome, IndexError>)
    ensures
        ({
            let staking_listed = lists_filter(filters@, staking_create_update_filter());
            let create_listed = lists_filter(filters@, user_staking_create_update_filter());
            let close_listed = lists_filter(filters@, user_staking_close_filter());
            let staking_kind = staking_update_kind(
                account_data@,
                decoded_staking,
                old(indexed_staking_accounts)@.dom().contains(account_key),
            );
            let user_kind = user_staking_update_kind(
                account_data@,
                decoded_user_staking,
                old(indexed_user_staking_accounts)@.dom().contains(account_key),
            );
            let user_part_runs = !staking_part_stops(staking_listed, staking_kind);
            let user_listed = create_listed || close_listed;
            &&& final(indexed_staking_accounts)@ == if staking_listed {
                staking_index_after(
                    old(indexed_staking_accounts)@,
                    account_key,
                    account_data@,
                    decoded_staking,
                )
            } else {
                old(indexed_staking_accounts)@
            }
            &&& final(staking_round_next_resolve_time_cache)@ == if staking_listed && staking_kind
                == UpdateKind::Modified {
                resolve_times_after(
                    old(staking_round_next_resolve_time_cache)@,
                    account_key,
                    decoded_staking->0.current_round_start_time,
                    round_min_duration,
                    current_time,
                )
            } else {
                old(staking_round_next_resolve_time_cache)@
            }
            &&& if user_part_runs && user_listed {
                user_staking_index_updated(
                    old(indexed_user_staking_accounts)@,
                    final(indexed_user_staking_accounts)@,
                    account_key,
                    account_data@,
                    decoded_user_staking,
                )
            } else {
                final(indexed_user_staking_accounts)@ == old(indexed_user_staking_accounts)@
            }
            &&& final(claim_cache)@ == if user_part_runs {
                claim_cache_after(
                    old(claim_cache)@,
                    create_listed,
                    user_kind,
                    account_key,
                    decoded_user_staking,
                )
            } else {
                old(claim_cache)@
            }
            &&& staking_listed && staking_kind == UpdateKind::Modified && resolve_time_fits(
                current_time,
                decoded_staking->0.current_round_start_time,
                round_min_duration,
            ) ==> final(staking_round_next_resolve_time_cache)@.dom().contains(account_key) && final(staking_round_next_resolve_time_cache)@[account_key] == if current_time - decoded_staking->0.current_round_start_time
                >= round_min_duration {
                current_time as int
            } else {
                decoded_staking->0.current_round_start_time + round_min_duration
            }
            &&& create_listed && user_part_runs ==> outcome == match user_kind {
                UpdateKind::Undecodable => Err(IndexError::UndecodableAccount),
                UpdateKind::Created => Ok(AccountUpdateOutcome::Applied { resubscribe: true }),
                UpdateKind::Closed => Ok(AccountUpdateOutcome::Applied { resubscribe: true }),
                UpdateKind::Modified => Ok(AccountUpdateOutcome::Applied { resubscribe: false }),
                UpdateKind::MissingStakingType => Ok(
                    AccountUpdateOutcome::Applied { resubscribe: false },
                ),
            }
            &&& create_listed && user_part_runs && (user_kind == UpdateKind::Created || user_kind
                == UpdateKind::Modified) ==> final(claim_cache)@ == old(claim_cache)@.insert(
                account_key,
                oldest_claim_time(decoded_user_staking->0.locked_stakes@),
            )
            &&& create_listed && user_part_runs && user_kind == UpdateKind::Closed ==> final(claim_cache)@ == old(claim_cache)@.remove(account_key)
            &&& outcome == if staking_listed && staking_kind == UpdateKind::Undecodable {
                Err(IndexError::UndecodableAccount)
            } else if staking_listed && staking_kind == UpdateKind::Created {
                Ok(AccountUpdateOutcome::StakingCreatedUnexpectedly)
            } else if staking_listed && staking_kind == UpdateKind::Closed {
                Ok(AccountUpdateOutcome::StakingClosedUnexpectedly)
            } else {
                user_staking_outcome(create_listed, close_listed, user_kind)
            }
        }),
{
    if has_filter(filters, "staking_create_update") {
        let update = update_indexed_staking_accounts(
            &account_key,
            account_data,
            decoded_staking,
            indexed_staking_accounts,
        );
        match update {
            Err(e) => {
                return Err(e);
            },
            Ok(StakingAccountUpdate::Created(_)) => {
                return Ok(AccountUpdateOutcome::StakingCreatedUnexpectedly);
            },
            Ok(StakingAccountUpdate::Closed) => {
                return Ok(AccountUpdateOutcome::StakingClosedUnexpectedly);
            },
            Ok(StakingAccountUpdate::Modified(updated_staking_account)) => {
                proof {
                    lemma_resolve_time_overwrites_any_entry(
                        staking_round_next_resolve_time_cache@,
                        account_key,
                        updated_staking_account.current_round_start_time,
                        round_min_duration,
                        current_time,
                    );
                }
                update_staking_round_next_resolve_time_cache_for_account(
                    staking_round_next_resolve_time_cache,
                    &account_key,
                    &updated_staking_account,
                    round_min_duration,
                    current_time,
                );
            },
        }
    }
    if has_filter(filters, "user_staking_create_update") {
        let update = update_indexed_user_staking_accounts(
            &account_key,
            account_data,
            decoded_user_staking,
            indexed_user_staking_accounts,
        );
        match update {
            Err(e) => Err(e),
            Ok(UserStakingAccountUpdate::Created(new_user_staking_account)) => {
                update_claim_cache_for_account(claim_cache, account_key, &new_user_staking_account);
                Ok(AccountUpdateOutcome::Applied { resubscribe: true })
            },
            Ok(UserStakingAccountUpdate::Modified(user_staking_account)) => {
                update_claim_cache_for_account(claim_cache, account_key, &user_staking_account);
                Ok(AccountUpdateOutcome::Applied { resubscribe: false })
            },
            Ok(UserStakingAccountUpdate::MissingStakingType(_)) => {
                Ok(AccountUpdateOutcome::Applied { resubscribe: false })
            },
            Ok(UserStakingAccountUpdate::Closed) => {
                claim_cache.remove(&account_key);
                Ok(AccountUpdateOutcome::Applied { resubscribe: true })
            },
        }
    } else if has_filter(filters, "user_staking_close") {
        let update = update_indexed_user_staking_accounts(
            &account_key,
            account_data,
            decoded_user_staking,
            indexed_user_staking_accounts,
        );
        match update {
            Err(e) => Err(e),
            Ok(UserStakingAccountUpdate::Created(_)) => {
                Ok(AccountUpdateOutcome::UserStakingCreatedUnexpectedly)
            },
            Ok(UserStakingAccountUpdate::Modified(_)) => {
                Ok(AccountUpdateOutcome::UserStakingModifiedUnexpectedly)
            },
            Ok(UserStakingAccountUpdate::Closed) | Ok(
                UserStakingAccountUpdate::MissingStakingType(_),
            ) => Ok(AccountUpdateOutcome::Applied { resubscribe: true }),
        }
    } else {
        Ok(AccountUpdateOutcome::Applied { resubscribe: false })
    }
}

} // verus!
