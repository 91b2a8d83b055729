use vstd::prelude::*;

use crate::accounts::{LockedStake, Staking, UserStaking};
use crate::keyed_map::KeyedMap;
use crate::pubkey::Pubkey;

verus! {

/// Taking one more element of a sequence adds that element to the set of
/// elements taken.
proof fn lemma_take_one_more_to_set<A>(s: Seq<A>, i: int)
    requires
        0 <= i < s.len(),
    ensures
        s.take(i + 1).to_set() == s.take(i).to_set().insert(s[i]),
{
    let longer = s.take(i + 1);
    let shorter = s.take(i);
    assert(longer =~= shorter.push(s[i]));
    assert forall|a: A| s.take(i + 1).to_set().contains(a) <==> s.take(i).to_set().insert(
        s[i],
    ).contains(a) by {
        if s.take(i + 1).contains(a) {
            let j = choose|j: int| 0 <= j < longer.len() && #[trigger] longer[j] == a;
            if j < i {
                assert(shorter[j] == a);
            }
        }
        if s.take(i).contains(a) {
            let j = choose|j: int| 0 <= j < shorter.len() && #[trigger] shorter[j] == a;
            assert(longer[j] == a);
        }
        if a == s[i] {
            assert(longer[i] == a);
        }
    }
    assert(s.take(i + 1).to_set() =~= s.take(i).to_set().insert(s[i]));
}

// ---------------------------------------------------------------------------
// Claim cache: the claim time of the oldest locked stake of each account.
// ---------------------------------------------------------------------------

/// The earliest claim time among the locked stakes whose amount is not zero,
/// or `None` when there is no such stake.
pub open spec fn oldest_claim_time(stakes: Seq<LockedStake>) -> Option<i64>
    decreases stakes.len(),
{
    if stakes.len() == 0 {
        None
    } else {
        let rest = oldest_claim_time(stakes.drop_last());
        let last = stakes.last();
        if last.amount == 0 {
            rest
        } else {
            match rest {
                None => Some(last.claim_time),
                Some(t) => Some(if last.claim_time < t { last.claim_time } else { t }),
            }
        }
    }
}

/// `oldest_claim_time` is the minimum of the claim times of the stakes with a
/// nonzero amount: it is `None` exactly when every amount is zero, and
/// otherwise it is the claim time of such a stake and no such stake has an
/// earlier one.
pub proof fn lemma_oldest_claim_time_is_minimum(stakes: Seq<LockedStake>)
    ensures
        oldest_claim_time(stakes) is None <==> forall|i: int|
            0 <= i < stakes.len() ==> (#[trigger] stakes[i]).amount == 0,
        oldest_claim_time(stakes) matches Some(t) ==> {
            &&& exists|i: int|
                0 <= i < stakes.len() && (#[trigger] stakes[i]).amount != 0 && stakes[i].claim_time
                    == t
            &&& forall|i: int|
                0 <= i < stakes.len() && (#[trigger] stakes[i]).amount != 0 ==> t
                    <= stakes[i].claim_time
        },
    decreases stakes.len(),
{
    if stakes.len() > 0 {
        let rest = stakes.drop_last();
        lemma_oldest_claim_time_is_minimum(rest);
        assert forall|i: int| 0 <= i < rest.len() implies rest[i] == stakes[i] by {}
        let n = stakes.len() - 1;
        if oldest_claim_time(rest) is Some {
            let t = oldest_claim_time(rest)->0;
            let j = choose|j: int|
                0 <= j < rest.len() && (#[trigger] rest[j]).amount != 0 && rest[j].claim_time == t;
            assert(stakes[j] == rest[j]);
        }
        if oldest_claim_time(stakes) is None {
            assert forall|i: int| 0 <= i < stakes.len() implies (#[trigger] stakes[i]).amount == 0 by {
                if i < n {
                    assert(rest[i] == stakes[i]);
                }
            }
        }
        if forall|i: int| 0 <= i < stakes.len() ==> (#[trigger] stakes[i]).amount == 0 {
            assert(stakes[n].amount == 0);
            assert forall|i: int| 0 <= i < rest.len() implies (#[trigger] rest[i]).amount == 0 by {
                assert(stakes[i].amount == 0);
            }
        }
        if oldest_claim_time(stakes) is Some {
            let t = oldest_claim_time(stakes)->0;
            assert forall|i: int|
                0 <= i < stakes.len() && (#[trigger] stakes[i]).amount != 0 implies t
                <= stakes[i].claim_time by {
                if i < n {
                    assert(rest[i] == stakes[i]);
                }
            }
            if stakes[n].amount != 0 && stakes[n].claim_time == t {
                assert(stakes[n].amount != 0 && stakes[n].claim_time == t);
            } else {
                let j = choose|j: int|
                    0 <= j < rest.len() && (#[trigger] rest[j]).amount != 0 && rest[j].claim_time
                        == t;
                assert(stakes[j] == rest[j]);
            }
        }
    }
}

/// Adding a stake with a nonzero amount can only make the oldest claim time
/// earlier: the new one is at most the old one and at most the added
/// stake's claim time, and it is one of the two.
pub proof fn lemma_live_stake_only_lowers_oldest_claim_time(
    stakes: Seq<LockedStake>,
    stake: LockedStake,
)
    requires
        stake.amount != 0,
    ensures
        oldest_claim_time(stakes.push(stake)) matches Some(t) && t <= stake.claim_time && (
        oldest_claim_time(stakes) matches Some(old) ==> t <= old) && (t == stake.claim_time
            || oldest_claim_time(stakes) == Some(t)),
{
    assert(stakes.push(stake).drop_last() =~= stakes);
}

/// Computes `oldest_claim_time` of the given stakes.
pub fn compute_oldest_claim_time(stakes: &Vec<LockedStake>) -> (oldest: Option<i64>)
    ensures
        oldest == oldest_claim_time(stakes@),
{
    let mut oldest: Option<i64> = None;
    let mut i: usize = 0;
    while i < stakes.len()
        invariant
            0 <= i <= stakes@.len(),
            oldest == oldest_claim_time(stakes@.take(i as int)),
        decreases stakes@.len() - i,
    {
        let stake = stakes[i];
        proof {
            assert(stakes@.take(i + 1).drop_last() =~= stakes@.take(i as int));
        }
        if stake.amount != 0 {
            oldest = match oldest {
                None => Some(stake.claim_time),
                Some(t) => Some(if stake.claim_time < t { stake.claim_time } else { t }),
            };
        }
        i = i + 1;
    }
    proof {
        assert(stakes@.take(i as int) =~= stakes@);
    }
    oldest
}

/// Records in the claim cache the claim time of the oldest locked stake of
/// one `UserStaking` account.
pub fn update_claim_cache_for_account(
    claim_cache: &mut KeyedMap<Pubkey, Option<i64>>,
    account_key: Pubkey,
    user_staking_account: &UserStaking,
)
    ensures
        final(claim_cache)@ == old(claim_cache)@.insert(
            account_key,
            oldest_claim_time(user_staking_account.locked_stakes@),
        ),
{
    let oldest_claim_time = compute_oldest_claim_time(&user_staking_account.locked_stakes);
    claim_cache.insert(account_key, oldest_claim_time);
}

/// The claim-cache entries that a set of indexed accounts determines.
pub open spec fn claim_times(accounts: Map<Pubkey, UserStaking>) -> Map<Pubkey, Option<i64>> {
    accounts.map_values(|u: UserStaking| oldest_claim_time(u.locked_stakes@))
}

/// The claim cache after the accounts of `keys` were recorded one after the
/// other, as `update_claim_cache_for_account` records each.
pub open spec fn claim_times_recorded_in_order(
    cache: Map<Pubkey, Option<i64>>,
    accounts: Map<Pubkey, UserStaking>,
    keys: Seq<Pubkey>,
) -> Map<Pubkey, Option<i64>>
    decreases keys.len(),
{
    if keys.len() == 0 {
        cache
    } else {
        let k = keys.last();
        claim_times_recorded_in_order(cache, accounts, keys.drop_last()).insert(
            k,
            oldest_claim_time(accounts[k].locked_stakes@),
        )
    }
}

/// Recording the accounts one after the other, in any order that visits
/// each indexed key once, gives the same claim cache: the old cache
/// overlaid with every indexed account's oldest claim time.
pub proof fn lemma_claim_cache_refresh_is_order_independent(
    cache: Map<Pubkey, Option<i64>>,
    accounts: Map<Pubkey, UserStaking>,
    keys: Seq<Pubkey>,
)
    requires
        keys.no_duplicates(),
        keys.to_set() == accounts.dom(),
    ensures
        claim_times_recorded_in_order(cache, accounts, keys) == cache.union_prefer_right(
            claim_times(accounts),
        ),
    decreases keys.len(),
{
    lemma_claim_times_prefix(cache, accounts, keys);
    assert(claim_times(accounts).restrict(keys.to_set()) =~= claim_times(accounts));
}

proof fn lemma_claim_times_prefix(
    cache: Map<Pubkey, Option<i64>>,
    accounts: Map<Pubkey, UserStaking>,
    keys: Seq<Pubkey>,
)
    requires
        forall|k: Pubkey| keys.contains(k) ==> accounts.dom().contains(k),
    ensures
        claim_times_recorded_in_order(cache, accounts, keys) == cache.union_prefer_right(
            claim_times(accounts).restrict(keys.to_set()),
        ),
    decreases keys.len(),
{
    if keys.len() == 0 {
        assert(keys.to_set() =~= Set::<Pubkey>::empty());
        assert(cache.union_prefer_right(claim_times(accounts).restrict(keys.to_set())) =~= cache);
    } else {
        let rest = keys.drop_last();
        assert forall|k: Pubkey| rest.contains(k) implies accounts.dom().contains(k) by {
            let j = choose|j: int| 0 <= j < rest.len() && rest[j] == k;
            assert(keys[j] == k);
            assert(keys.contains(k));
        }
        lemma_claim_times_prefix(cache, accounts, rest);
        assert(keys =~= rest.push(keys.last()));
        lemma_take_one_more_to_set(keys, keys.len() - 1);
        assert(keys.take(keys.len() - 1) =~= rest);
        assert(keys.take(keys.len() as int) =~= keys);
        assert(keys.contains(keys.last())) by {
            assert(keys[keys.len() - 1] == keys.last());
        }
        assert(claim_times_recorded_in_order(cache, accounts, keys) =~= cache.union_prefer_right(
            claim_times(accounts).restrict(keys.to_set()),
        ));
    }
}

/// Every account, with or without an active stake, has a claim-cache entry:
/// its oldest claim time, `None` included.
pub proof fn lemma_claim_times_cover_every_account(accounts: Map<Pubkey, UserStaking>)
    ensures
        claim_times(accounts).dom() == accounts.dom(),
        forall|k: Pubkey|
            #[trigger] accounts.dom().contains(k) ==> claim_times(accounts)[k] == oldest_claim_time(
                accounts[k].locked_stakes@,
            ),
{
    assert(claim_times(accounts).dom() =~= accounts.dom());
}

/// Records in the claim cache the claim time of the oldest locked stake of
/// every indexed `UserStaking` account; other entries stay as they were.
pub fn update_claim_cache(
    claim_cache: &mut KeyedMap<Pubkey, Option<i64>>,
    indexed_user_staking_accounts: &KeyedMap<Pubkey, UserStaking>,
)
    ensures
        final(claim_cache)@ == old(claim_cache)@.union_prefer_right(
            claim_times(indexed_user_staking_accounts@),
        ),
        forall|k: Pubkey|
            #[trigger] indexed_user_staking_accounts@.dom().contains(k) ==> {
                &&& final(claim_cache)@.dom().contains(k)
                &&& final(claim_cache)@[k] == oldest_claim_time(
                    indexed_user_staking_accounts@[k].locked_stakes@,
                )
            },
        forall|k: Pubkey|
            !indexed_user_staking_accounts@.dom().contains(k) ==> #[trigger] final(claim_cache)@.get(k) == old(claim_cache)@.get(k),
{
    let ghost start = claim_cache@;
    let ghost index = indexed_user_staking_accounts@;
    let ghost keys = indexed_user_staking_accounts.key_seq();
    let n = indexed_user_staking_accounts.entry_count();
    let mut i: usize = 0;
    while i < n
        invariant
            0 <= i <= n,
            n == keys.len(),
            keys == indexed_user_staking_accounts.key_seq(),
            index == indexed_user_staking_accounts@,
            forall|k: Pubkey| index.dom().contains(k) <==> #[trigger] keys.contains(k),
            claim_cache@ == start.union_prefer_right(
                claim_times(index).restrict(keys.take(i as int).to_set()),
            ),
        decreases n - i,
    {
        let (key, account) = indexed_user_staking_accounts.entry_at(i);
        update_claim_cache_for_account(claim_cache, *key, account);
        proof {
            lemma_take_one_more_to_set(keys, i as int);
            assert(claim_cache@ =~= start.union_prefer_right(
                claim_times(index).restrict(keys.take(i + 1).to_set()),
            ));
        }
        i = i + 1;
    }
    proof {
        assert(keys.take(i as int) =~= keys);
        assert(claim_times(index).restrict(keys.to_set()) =~= claim_times(index));
        lemma_claim_times_cover_every_account(index);
    }
}

// ---------------------------------------------------------------------------
// Finalize cache: the end time of each active locked stake, by stake id.
// ---------------------------------------------------------------------------

/// Whether some locked stake has a nonzero amount.
pub open spec fn has_active_stake(stakes: Seq<LockedStake>) -> bool {
    exists|i: int| 0 <= i < stakes.len() && (#[trigger] stakes[i]).amount != 0
}

/// `base` with the end time of every stake whose amount is not zero stored
/// under the stake's id, the stakes taken in order.
pub open spec fn record_end_times(base: Map<u64, i64>, stakes: Seq<LockedStake>) -> Map<u64, i64>
    decreases stakes.len(),
{
    if stakes.len() == 0 {
        base
    } else {
        let recorded = record_end_times(base, stakes.drop_last());
        let last = stakes.last();
        if last.amount != 0 {
            recorded.insert(last.id, last.end_time)
        } else {
            recorded
        }
    }
}

/// Whether some stake with a nonzero amount has the id `id`.
pub open spec fn has_active_stake_with_id(stakes: Seq<LockedStake>, id: u64) -> bool {
    exists|i: int| 0 <= i < stakes.len() && (#[trigger] stakes[i]).amount != 0 && stakes[i].id == id
}

/// What `record_end_times` records: an entry for each id of a stake with a
/// nonzero amount, holding the end time of the last such stake with that id;
/// the other entries of `base` as they were.
pub proof fn lemma_record_end_times(base: Map<u64, i64>, stakes: Seq<LockedStake>)
    ensures
        forall|id: u64|
            #[trigger] record_end_times(base, stakes).dom().contains(id) <==> base.dom().contains(id)
                || has_active_stake_with_id(stakes, id),
        forall|i: int|
            0 <= i < stakes.len() && (#[trigger] stakes[i]).amount != 0 && (forall|j: int|
                i < j < stakes.len() && (#[trigger] stakes[j]).amount != 0 ==> stakes[j].id
                    != stakes[i].id) ==> record_end_times(base, stakes)[stakes[i].id]
                == stakes[i].end_time,
        forall|id: u64|
            !has_active_stake_with_id(stakes, id) ==> #[trigger] record_end_times(base, stakes).get(id)
                == base.get(id),
    decreases stakes.len(),
{
    if stakes.len() > 0 {
        let rest = stakes.drop_last();
        let n = stakes.len() - 1;
        let last = stakes.last();
        lemma_record_end_times(base, rest);
        assert forall|i: int| 0 <= i < rest.len() implies rest[i] == stakes[i] by {}
        assert forall|id: u64|
            has_active_stake_with_id(stakes, id) <==> has_active_stake_with_id(rest, id) || (
            last.amount != 0 && last.id == id) by {
            if has_active_stake_with_id(stakes, id) {
                let i = choose|i: int|
                    0 <= i < stakes.len() && (#[trigger] stakes[i]).amount != 0 && stakes[i].id
                        == id;
                if i < n {
                    assert(rest[i] == stakes[i]);
                }
            }
            if has_active_stake_with_id(rest, id) {
                let i = choose|i: int|
                    0 <= i < rest.len() && (#[trigger] rest[i]).amount != 0 && rest[i].id == id;
                assert(stakes[i] == rest[i]);
            }
            if last.amount != 0 && last.id == id {
                assert(stakes[n] == last);
            }
        }
        assert forall|i: int|
            0 <= i < stakes.len() && (#[trigger] stakes[i]).amount != 0 && (forall|j: int|
                i < j < stakes.len() && (#[trigger] stakes[j]).amount != 0 ==> stakes[j].id
                    != stakes[i].id) implies record_end_times(base, stakes)[stakes[i].id]
            == stakes[i].end_time by {
            if i < n {
                assert(rest[i] == stakes[i]);
                assert forall|j: int|
                    i < j < rest.len() && (#[trigger] rest[j]).amount != 0 implies rest[j].id
                    != rest[i].id by {
                    assert(stakes[j] == rest[j]);
                }
                if last.amount != 0 {
                    assert(stakes[n] == last);
                }
            }
        }
        assert forall|id: u64| !has_active_stake_with_id(stakes, id) implies #[trigger] record_end_times(
            base,
            stakes,
        ).get(id) == base.get(id) by {
            assert(!has_active_stake_with_id(rest, id));
            assert(record_end_times(base, rest).get(id) == base.get(id));
            if last.amount != 0 {
                assert(last.id != id);
                assert(record_end_times(base, stakes) == record_end_times(base, rest).insert(
                    last.id,
                    last.end_time,
                ));
                assert(record_end_times(base, stakes).dom().contains(id) == record_end_times(
                    base,
                    rest,
                ).dom().contains(id));
            }
        }
    }
}

/// The id map that an account's entry in the finalize cache starts from.
pub open spec fn end_times_before(
    cache: Map<Pubkey, KeyedMap<u64, i64>>,
    key: Pubkey,
) -> Map<u64, i64> {
    if cache.dom().contains(key) {
        cache[key]@
    } else {
        Map::empty()
    }
}

/// What `update_finalize_locked_stakes_cache_for_account` makes of the cache
/// `before`, for the account `key` with the given stakes, given the cache
/// `after`.
pub open spec fn end_times_recorded(
    before: Map<Pubkey, KeyedMap<u64, i64>>,
    after: Map<Pubkey, KeyedMap<u64, i64>>,
    key: Pubkey,
    stakes: Seq<LockedStake>,
) -> bool {
    if has_active_stake(stakes) {
        &&& after.dom() == before.dom().insert(key)
        &&& after[key]@ == record_end_times(end_times_before(before, key), stakes)
        &&& forall|k: Pubkey| k != key ==> #[trigger] after.get(k) == before.get(k)
    } else {
        after == before
    }
}

/// Every locked stake with a nonzero amount, wherever it stands, has its id
/// recorded under the account, with the end time of the last such stake of
/// that id; an account without such a stake leaves the cache as it was.
pub proof fn lemma_every_active_stake_is_recorded(
    before: Map<Pubkey, KeyedMap<u64, i64>>,
    after: Map<Pubkey, KeyedMap<u64, i64>>,
    key: Pubkey,
    stakes: Seq<LockedStake>,
)
    requires
        end_times_recorded(before, after, key, stakes),
    ensures
        forall|i: int|
            0 <= i < stakes.len() && (#[trigger] stakes[i]).amount != 0 ==> {
                &&& after.dom().contains(key)
                &&& after[key]@.dom().contains(stakes[i].id)
            },
        forall|i: int|
            0 <= i < stakes.len() && (#[trigger] stakes[i]).amount != 0 && (forall|j: int|
                i < j < stakes.len() && (#[trigger] stakes[j]).amount != 0 ==> stakes[j].id
                    != stakes[i].id) ==> after[key]@[stakes[i].id] == stakes[i].end_time,
        (forall|i: int| 0 <= i < stakes.len() ==> (#[trigger] stakes[i]).amount == 0) ==> after
            == before,
        forall|k: Pubkey| k != key ==> #[trigger] after.get(k) == before.get(k),
{
    lemma_record_end_times(end_times_before(before, key), stakes);
    assert forall|i: int| 0 <= i < stakes.len() && (#[trigger] stakes[i]).amount != 0 implies {
        &&& after.dom().contains(key)
        &&& after[key]@.dom().contains(stakes[i].id)
    } by {
        assert(has_active_stake(stakes));
        assert(has_active_stake_with_id(stakes, stakes[i].id));
    }
    assert forall|i: int|
        0 <= i < stakes.len() && (#[trigger] stakes[i]).amount != 0 && (forall|j: int|
            i < j < stakes.len() && (#[trigger] stakes[j]).amount != 0 ==> stakes[j].id
                != stakes[i].id) implies after[key]@[stakes[i].id] == stakes[i].end_time by {
        assert(has_active_stake(stakes));
    }
    if forall|i: int| 0 <= i < stakes.len() ==> (#[trigger] stakes[i]).amount == 0 {
        assert(!has_active_stake(stakes));
    }
}

/// Records in the finalize cache, under the account's key, the end time of
/// each locked stake of the account whose amount is not zero, keyed by the
/// stake's id. An account without such a stake leaves the cache as it was.
pub fn update_finalize_locked_stakes_cache_for_account(
    finalize_locked_stakes_cache: &mut KeyedMap<Pubkey, KeyedMap<u64, i64>>,
    user_staking_account_key: &Pubkey,
    user_staking_account: &UserStaking,
)
    ensures
        end_times_recorded(
            old(finalize_locked_stakes_cache)@,
            final(finalize_locked_stakes_cache)@,
            *user_staking_account_key,
            user_staking_account.locked_stakes@,
        ),
        forall|i: int|
            0 <= i < user_staking_account.locked_stakes@.len() && (
            #[trigger] user_staking_account.locked_stakes@[i]).amount != 0 ==> {
                &&& final(finalize_locked_stakes_cache)@.dom().contains(*user_staking_account_key)
                &&& final(finalize_locked_stakes_cache)@[*user_staking_account_key]@.dom().contains(
                    user_staking_account.locked_stakes@[i].id,
                )
            },
        (forall|i: int|
            0 <= i < user_staking_account.locked_stakes@.len() ==> (
            #[trigger] user_staking_account.locked_stakes@[i]).amount == 0) ==> final(
            finalize_locked_stakes_cache)@ == old(finalize_locked_stakes_cache)@,
{
    let ghost before = finalize_locked_stakes_cache@;
    let stakes = &user_staking_account.locked_stakes;
    let removed = finalize_locked_stakes_cache.remove(user_staking_account_key);
    let had_entry = removed.is_some();
    let mut end_times = match removed {
        Some(m) => m,
        None => KeyedMap::new(),
    };
    let ghost initial = end_times;
    let mut touched = false;
    let mut i: usize = 0;
    while i < stakes.len()
        invariant
            0 <= i <= stakes@.len(),
            end_times@ == record_end_times(initial@, stakes@.take(i as int)),
            touched == has_active_stake(stakes@.take(i as int)),
            !touched ==> end_times == initial,
        decreases stakes@.len() - i,
    {
        let stake = stakes[i];
        proof {
            assert(stakes@.take(i + 1).drop_last() =~= stakes@.take(i as int));
            assert(stakes@.take(i + 1)[i as int] == stake);
            if has_active_stake(stakes@.take(i as int)) {
                let j = choose|j: int|
                    0 <= j < i && (#[trigger] stakes@.take(i as int)[j]).amount != 0;
                assert(stakes@.take(i + 1)[j] == stakes@.take(i as int)[j]);
            }
            if has_active_stake(stakes@.take(i + 1)) && stake.amount == 0 {
                let j = choose|j: int|
                    0 <= j < i + 1 && (#[trigger] stakes@.take(i + 1)[j]).amount != 0;
                assert(stakes@.take(i as int)[j] == stakes@.take(i + 1)[j]);
            }
        }
        if stake.amount != 0 {
            end_times.insert(stake.id, stake.end_time);
            touched = true;
        }
        i = i + 1;
    }
    proof {
        assert(stakes@.take(i as int) =~= stakes@);
        if had_entry {
            assert(initial@ == end_times_before(before, *user_staking_account_key));
        } else {
            assert(initial@ =~= end_times_before(before, *user_staking_account_key));
        }
    }
    let ghost key = *user_staking_account_key;
    if touched || had_entry {
        finalize_locked_stakes_cache.insert(*user_staking_account_key, end_times);
        proof {
            if !touched {
                assert(end_times == before[key]);
                assert(finalize_locked_stakes_cache@ =~= before);
            } else {
                assert(has_active_stake(stakes@));
                assert(finalize_locked_stakes_cache@.dom() =~= before.dom().insert(key));
                assert(finalize_locked_stakes_cache@[key]@ == record_end_times(
                    end_times_before(before, key),
                    stakes@,
                ));
            }
        }
    } else {
        proof {
            assert(!has_active_stake(stakes@));
            assert(finalize_locked_stakes_cache@ =~= before);
        }
    }
    proof {
        lemma_every_active_stake_is_recorded(
            before,
            finalize_locked_stakes_cache@,
            *user_staking_account_key,
            stakes@,
        );
    }
}

/// Whether `after` is `before` with the end times of the accounts of
/// `accounts` whose keys are in `processed` recorded, each as
/// `update_finalize_locked_stakes_cache_for_account` records them.
pub open spec fn end_times_recorded_for(
    before: Map<Pubkey, KeyedMap<u64, i64>>,
    after: Map<Pubkey, KeyedMap<u64, i64>>,
    accounts: Map<Pubkey, UserStaking>,
    processed: Set<Pubkey>,
) -> bool {
    &&& forall|k: Pubkey|
        processed.contains(k) && accounts.dom().contains(k) && has_active_stake(
            accounts[k].locked_stakes@,
        ) ==> {
            &&& #[trigger] after.dom().contains(k)
            &&& after[k]@ == record_end_times(
                end_times_before(before, k),
                accounts[k].locked_stakes@,
            )
        }
    &&& forall|k: Pubkey|
        !(processed.contains(k) && accounts.dom().contains(k) && has_active_stake(
            accounts[k].locked_stakes@,
        )) ==> #[trigger] after.get(k) == before.get(k)
}

/// Across all indexed accounts: every locked stake with a nonzero amount has
/// its id recorded under its account, and keys that are not indexed keep
/// their entries.
pub proof fn lemma_every_indexed_active_stake_is_recorded(
    before: Map<Pubkey, KeyedMap<u64, i64>>,
    after: Map<Pubkey, KeyedMap<u64, i64>>,
    accounts: Map<Pubkey, UserStaking>,
)
    requires
        end_times_recorded_for(before, after, accounts, accounts.dom()),
    ensures
        forall|k: Pubkey, i: int|
            #![trigger accounts[k].locked_stakes@[i]]
            accounts.dom().contains(k) && 0 <= i < accounts[k].locked_stakes@.len()
                && accounts[k].locked_stakes@[i].amount != 0 ==> {
                &&& after.dom().contains(k)
                &&& after[k]@.dom().contains(accounts[k].locked_stakes@[i].id)
            },
        forall|k: Pubkey| !accounts.dom().contains(k) ==> #[trigger] after.get(k) == before.get(k),
{
    assert forall|k: Pubkey, i: int|
        #![trigger accounts[k].locked_stakes@[i]]
        accounts.dom().contains(k) && 0 <= i < accounts[k].locked_stakes@.len()
            && accounts[k].locked_stakes@[i].amount != 0 implies {
            &&& after.dom().contains(k)
            &&& after[k]@.dom().contains(accounts[k].locked_stakes@[i].id)
        } by {
        let stakes = accounts[k].locked_stakes@;
        assert(stakes[i].amount != 0);
        assert(has_active_stake(stakes));
        assert(after.dom().contains(k));
        lemma_record_end_times(end_times_before(before, k), stakes);
        assert(has_active_stake_with_id(stakes, stakes[i].id));
    }
}

/// Records in the finalize cache the end times of the active locked stakes
/// of every indexed `UserStaking` account; accounts without an active stake,
/// and keys that are not indexed, keep their entries as they were.
pub fn update_finalize_locked_stakes_cache(
    finalize_locked_stakes_cache: &mut KeyedMap<Pubkey, KeyedMap<u64, i64>>,
    indexed_user_staking_accounts: &KeyedMap<Pubkey, UserStaking>,
)
    ensures
        end_times_recorded_for(
            old(finalize_locked_stakes_cache)@,
            final(finalize_locked_stakes_cache)@,
            indexed_user_staking_accounts@,
            indexed_user_staking_accounts@.dom(),
        ),
        forall|k: Pubkey, i: int|
            #![trigger indexed_user_staking_accounts@[k].locked_stakes@[i]]
            indexed_user_staking_accounts@.dom().contains(k) && 0 <= i
                < indexed_user_staking_accounts@[k].locked_stakes@.len()
                && indexed_user_staking_accounts@[k].locked_stakes@[i].amount != 0 ==> {
                &&& final(finalize_locked_stakes_cache)@.dom().contains(k)
                &&& final(finalize_locked_stakes_cache)@[k]@.dom().contains(
                    indexed_user_staking_accounts@[k].locked_stakes@[i].id,
                )
            },
        forall|k: Pubkey|
            !indexed_user_staking_accounts@.dom().contains(k) ==> #[trigger] final(
            finalize_locked_stakes_cache)@.get(k) == old(finalize_locked_stakes_cache)@.get(k),
{
    let ghost start = finalize_locked_stakes_cache@;
    let ghost index = indexed_user_staking_accounts@;
    let ghost keys = indexed_user_staking_accounts.key_seq();
    let n = indexed_user_staking_accounts.entry_count();
    let mut i: usize = 0;
    proof {
        assert(keys.take(0).to_set() =~= Set::<Pubkey>::empty());
    }
    while i < n
        invariant
            0 <= i <= n,
            n == keys.len(),
            keys == indexed_user_staking_accounts.key_seq(),
            keys.no_duplicates(),
            index == indexed_user_staking_accounts@,
            forall|k: Pubkey| index.dom().contains(k) <==> #[trigger] keys.contains(k),
            end_times_recorded_for(
                start,
                finalize_locked_stakes_cache@,
                index,
                keys.take(i as int).to_set(),
            ),
        decreases n - i,
    {
        let ghost mid = finalize_locked_stakes_cache@;
        let (key, account) = indexed_user_staking_accounts.entry_at(i);
        update_finalize_locked_stakes_cache_for_account(finalize_locked_stakes_cache, key, account);
        proof {
            let done = keys.take(i as int).to_set();
            let next = keys.take(i + 1).to_set();
            lemma_take_one_more_to_set(keys, i as int);
            assert(!done.contains(*key)) by {
                if done.contains(*key) {
                    let j = choose|j: int| 0 <= j < i && #[trigger] keys.take(i as int)[j] == *key;
                    assert(keys[j] == keys[i as int]);
                }
            }
            assert(mid.get(*key) == start.get(*key));
            assert(end_times_before(mid, *key) == end_times_before(start, *key));
            let cur = finalize_locked_stakes_cache@;
            assert(index[*key] == *account);
            assert forall|k: Pubkey|
                next.contains(k) && index.dom().contains(k) && has_active_stake(
                    index[k].locked_stakes@,
                ) implies {
                &&& #[trigger] cur.dom().contains(k)
                &&& cur[k]@ == record_end_times(end_times_before(start, k), index[k].locked_stakes@)
            } by {
                if k != *key {
                    assert(done.contains(k));
                    assert(mid.dom().contains(k));
                    assert(cur.get(k) == mid.get(k));
                }
            }
            assert forall|k: Pubkey|
                !(next.contains(k) && index.dom().contains(k) && has_active_stake(
                    index[k].locked_stakes@,
                )) implies #[trigger] cur.get(k) == start.get(k) by {
                if k != *key {
                    assert(mid.get(k) == start.get(k));
                    assert(cur.get(k) == mid.get(k));
                } else {
                    assert(cur == mid);
                }
            }
            assert(end_times_recorded_for(start, cur, index, next));
        }
        i = i + 1;
    }
    proof {
        assert(keys.take(i as int) =~= keys);
        assert(keys.to_set() =~= index.dom());
        lemma_every_indexed_active_stake_is_recorded(start, finalize_locked_stakes_cache@, index);
    }
}

// ---------------------------------------------------------------------------
// Staking-round resolve times.
// ---------------------------------------------------------------------------

/// When a staking round that started at `round_start_time` may next be
/// resolved, seen at `current_time`: now if the round has already run for at
/// least `round_min_duration` seconds, else once it will have.
pub open spec fn next_resolve_time(
    current_time: int,
    round_start_time: int,
    round_min_duration: int,
) -> int {
    if current_time - round_start_time >= round_min_duration {
        current_time
    } else {
        round_start_time + round_min_duration
    }
}

/// The next resolve time is the later of now and the end of the round's
/// minimum duration: a round is never scheduled in the past, nor before it
/// has run for its minimum duration.
pub proof fn lemma_next_resolve_time_is_later_of_now_and_round_end(
    current_time: int,
    round_start_time: int,
    round_min_duration: int,
)
    ensures
        next_resolve_time(current_time, round_start_time, round_min_duration) == if current_time
            >= round_start_time + round_min_duration {
            current_time
        } else {
            round_start_time + round_min_duration
        },
        next_resolve_time(current_time, round_start_time, round_min_duration) >= current_time,
        next_resolve_time(current_time, round_start_time, round_min_duration) >= round_start_time
            + round_min_duration,
{
}

/// Whether the resolve time can be computed in 64-bit arithmetic: the round's
/// running time fits, and so does its end where the end is the answer.
pub open spec fn resolve_time_fits(
    current_time: i64,
    round_start_time: i64,
    round_min_duration: i64,
) -> bool {
    &&& i64::MIN <= current_time - round_start_time <= i64::MAX
    &&& current_time - round_start_time < round_min_duration ==> i64::MIN <= round_start_time
        + round_min_duration <= i64::MAX
}

/// Computes `next_resolve_time`.
pub fn compute_next_resolve_time(
    current_time: i64,
    round_start_time: i64,
    round_min_duration: i64,
) -> (next: i64)
    requires
        resolve_time_fits(current_time, round_start_time, round_min_duration),
    ensures
        next == next_resolve_time(
            current_time as int,
            round_start_time as int,
            round_min_duration as int,
        ),
{
    let round_current_duration = current_time - round_start_time;
    if round_current_duration >= round_min_duration {
        current_time
    } else {
        round_start_time + round_min_duration
    }
}

/// The resolve time of a round, where it fits in 64 bits at `current_time`.
pub open spec fn resolve_time_at(
    current_time: i64,
    round_start_time: i64,
    round_min_duration: i64,
) -> Option<i64> {
    if resolve_time_fits(current_time, round_start_time, round_min_duration) {
        Some(
            next_resolve_time(
                current_time as int,
                round_start_time as int,
                round_min_duration as int,
            ) as i64,
        )
    } else {
        None
    }
}

/// Computes `resolve_time_at`: the resolve time, or `None` where computing it
/// would overflow 64 bits.
pub fn checked_next_resolve_time(
    current_time: i64,
    round_start_time: i64,
    round_min_duration: i64,
) -> (next: Option<i64>)
    ensures
        next == resolve_time_at(current_time, round_start_time, round_min_duration),
        next matches Some(t) ==> t == next_resolve_time(
            current_time as int,
            round_start_time as int,
            round_min_duration as int,
        ),
{
    let duration_fits = if round_start_time >= 0 {
        current_time >= i64::MIN + round_start_time
    } else {
        current_time <= i64::MAX + round_start_time
    };
    if !duration_fits {
        return None;
    }
    let round_current_duration = current_time - round_start_time;
    if round_current_duration < round_min_duration {
        let end_fits = if round_min_duration >= 0 {
            round_start_time <= i64::MAX - round_min_duration
        } else {
            round_start_time >= i64::MIN - round_min_duration
        };
        if !end_fits {
            return None;
        }
    }
    Some(compute_next_resolve_time(current_time, round_start_time, round_min_duration))
}

/// The resolve-time cache once the round of `key` was looked at `current_time`:
/// the entry of `key` holds the round's resolve time where it fits in 64
/// bits; otherwise the cache is as it was.
pub open spec fn resolve_times_after(
    cache: Map<Pubkey, i64>,
    key: Pubkey,
    round_start_time: i64,
    round_min_duration: i64,
    current_time: i64,
) -> Map<Pubkey, i64> {
    match resolve_time_at(current_time, round_start_time, round_min_duration) {
        Some(t) => cache.insert(key, t),
        None => cache,
    }
}

/// Looking at a round stores its resolve time under its key whatever the
/// cache held there before: now if the round has run its minimum duration,
/// else the round's start plus that duration. Other keys are untouched, and
/// nothing changes where the time overflows 64 bits.
pub proof fn lemma_resolve_time_overwrites_any_entry(
    cache: Map<Pubkey, i64>,
    key: Pubkey,
    round_start_time: i64,
    round_min_duration: i64,
    current_time: i64,
)
    ensures
        resolve_time_fits(current_time, round_start_time, round_min_duration) <==> {
            &&& i64::MIN <= current_time - round_start_time <= i64::MAX
            &&& current_time - round_start_time < round_min_duration ==> i64::MIN
                <= round_start_time + round_min_duration <= i64::MAX
        },
        resolve_time_fits(current_time, round_start_time, round_min_duration) ==> {
            let after = resolve_times_after(
                cache,
                key,
                round_start_time,
                round_min_duration,
                current_time,
            );
            &&& after.dom().contains(key)
            &&& after[key] == if current_time - round_start_time >= round_min_duration {
                current_time as int
            } else {
                round_start_time + round_min_duration
            }
        },
        !resolve_time_fits(current_time, round_start_time, round_min_duration) ==> resolve_times_after(
            cache,
            key,
            round_start_time,
            round_min_duration,
            current_time,
        ) == cache,
        forall|k: Pubkey|
            k != key ==> #[trigger] resolve_times_after(
                cache,
                key,
                round_start_time,
                round_min_duration,
                current_time,
            ).get(k) == cache.get(k),
{
}

/// Records in the cache when the current round of one `Staking` account may
/// next be resolved, as seen at `current_time` (Unix seconds). Returns whether
/// it did: the cache is left as it was where that time overflows 64 bits.
pub fn update_staking_round_next_resolve_time_cache_for_account(
    staking_round_next_resolve_time_cache: &mut KeyedMap<Pubkey, i64>,
    staking_account_key: &Pubkey,
    staking_account: &Staking,
    round_min_duration: i64,
    current_time: i64,
) -> (recorded: bool)
    ensures
        recorded == resolve_time_fits(
            current_time,
            staking_account.current_round_start_time,
            round_min_duration,
        ),
        final(staking_round_next_resolve_time_cache)@ == resolve_times_after(
            old(staking_round_next_resolve_time_cache)@,
            *staking_account_key,
            staking_account.current_round_start_time,
            round_min_duration,
            current_time,
        ),
        recorded <==> {
            &&& i64::MIN <= current_time - staking_account.current_round_start_time <= i64::MAX
            &&& current_time - staking_account.current_round_start_time < round_min_duration
                ==> staking_account.current_round_start_time + round_min_duration <= i64::MAX
                && staking_account.current_round_start_time + round_min_duration >= i64::MIN
        },
        recorded ==> final(staking_round_next_resolve_time_cache)@.dom().contains(
            *staking_account_key,
        ) && final(staking_round_next_resolve_time_cache)@[*staking_account_key] == if current_time
            - staking_account.current_round_start_time >= round_min_duration {
            current_time as int
        } else {
            staking_account.current_round_start_time + round_min_duration
        },
        !recorded ==> final(staking_round_next_resolve_time_cache)@ == old(staking_round_next_resolve_time_cache)@,
        forall|k: Pubkey|
            k != *staking_account_key ==> #[trigger] final(staking_round_next_resolve_time_cache)@.get(k) == old(staking_round_next_resolve_time_cache)@.get(k),
{
    proof {
        lemma_resolve_time_overwrites_any_entry(
            staking_round_next_resolve_time_cache@,
            *staking_account_key,
            staking_account.current_round_start_time,
            round_min_duration,
            current_time,
        );
    }
    match checked_next_resolve_time(
        current_time,
        staking_account.current_round_start_time,
        round_min_duration,
    ) {
        Some(next_resolve_time) => {
            staking_round_next_resolve_time_cache.insert(*staking_account_key, next_resolve_time);
            true
        },
        None => false,
    }
}

/// The resolve times of the rounds of the given accounts, as seen at
/// `current_time`, for the accounts whose time fits in 64 bits.
pub open spec fn resolve_times(
    accounts: Map<Pubkey, Staking>,
    round_min_duration: i64,
    current_time: i64,
) -> Map<Pubkey, i64> {
    Map::new(
        |k: Pubkey|
            accounts.dom().contains(k) && resolve_time_fits(
                current_time,
                accounts[k].current_round_start_time,
                round_min_duration,
            ),
        |k: Pubkey|
            resolve_time_at(
                current_time,
                accounts[k].current_round_start_time,
                round_min_duration,
            )->0,
    )
}

/// Every account whose resolve time fits has exactly that time, and only
/// those accounts have one.
pub proof fn lemma_resolve_times_cover_fitting_accounts(
    accounts: Map<Pubkey, Staking>,
    round_min_duration: i64,
    current_time: i64,
)
    ensures
        forall|k: Pubkey|
            #[trigger] resolve_times(accounts, round_min_duration, current_time).dom().contains(k)
                <==> accounts.dom().contains(k) && resolve_time_fits(
                current_time,
                accounts[k].current_round_start_time,
                round_min_duration,
            ),
        forall|k: Pubkey|
            #[trigger] resolve_times(accounts, round_min_duration, current_time).dom().contains(k)
                ==> resolve_times(accounts, round_min_duration, current_time)[k] == if current_time
                - accounts[k].current_round_start_time >= round_min_duration {
                current_time as int
            } else {
                accounts[k].current_round_start_time + round_min_duration
            },
{
}

/// Records in the cache when the current round of every indexed `Staking`
/// account may next be resolved, as seen at `current_time`. Returns whether
/// every such time was recorded; an account whose time overflows 64 bits
/// keeps its entry as it was, and so do keys that are not indexed.
pub fn update_staking_round_next_resolve_time_cache(
    staking_round_next_resolve_time_cache: &mut KeyedMap<Pubkey, i64>,
    indexed_staking_accounts: &KeyedMap<Pubkey, Staking>,
    round_min_duration: i64,
    current_time: i64,
) -> (all_recorded: bool)
    ensures
        final(staking_round_next_resolve_time_cache)@ == old(staking_round_next_resolve_time_cache)@.union_prefer_right(
            resolve_times(indexed_staking_accounts@, round_min_duration, current_time),
        ),
        all_recorded == forall|k: Pubkey|
            #[trigger] indexed_staking_accounts@.dom().contains(k) ==> resolve_time_fits(
                current_time,
                indexed_staking_accounts@[k].current_round_start_time,
                round_min_duration,
            ),
        forall|k: Pubkey|
            #[trigger] indexed_staking_accounts@.dom().contains(k) && resolve_time_fits(
                current_time,
                indexed_staking_accounts@[k].current_round_start_time,
                round_min_duration,
            ) ==> final(staking_round_next_resolve_time_cache)@.dom().contains(k) && final(staking_round_next_resolve_time_cache)@[k] == if current_time - indexed_staking_accounts@[k].current_round_start_time
                >= round_min_duration {
                current_time as int
            } else {
                indexed_staking_accounts@[k].current_round_start_time + round_min_duration
            },
        forall|k: Pubkey|
            !(#[trigger] indexed_staking_accounts@.dom().contains(k) && resolve_time_fits(
                current_time,
                indexed_staking_accounts@[k].current_round_start_time,
                round_min_duration,
            )) ==> final(staking_round_next_resolve_time_cache)@.get(k) == old(staking_round_next_resolve_time_cache)@.get(k),
{
    let ghost start = staking_round_next_resolve_time_cache@;
    let ghost index = indexed_staking_accounts@;
    let ghost keys = indexed_staking_accounts.key_seq();
    let ghost times = resolve_times(index, round_min_duration, current_time);
    let n = indexed_staking_accounts.entry_count();
    let mut all_recorded = true;
    let mut i: usize = 0;
    while i < n
        invariant
            0 <= i <= n,
            n == keys.len(),
            keys == indexed_staking_accounts.key_seq(),
            index == indexed_staking_accounts@,
            times == resolve_times(index, round_min_duration, current_time),
            forall|k: Pubkey| index.dom().contains(k) <==> #[trigger] keys.contains(k),
            staking_round_next_resolve_time_cache@ == start.union_prefer_right(
                times.restrict(keys.take(i as int).to_set()),
            ),
            all_recorded == forall|k: Pubkey|
                #[trigger] keys.take(i as int).contains(k) ==> resolve_time_fits(
                    current_time,
                    index[k].current_round_start_time,
                    round_min_duration,
                ),
        decreases n - i,
    {
        let (key, account) = indexed_staking_accounts.entry_at(i);
        let recorded = update_staking_round_next_resolve_time_cache_for_account(
            staking_round_next_resolve_time_cache,
            key,
            account,
            round_min_duration,
            current_time,
        );
        let ghost was_all = all_recorded;
        if !recorded {
            all_recorded = false;
        }
        proof {
            lemma_take_one_more_to_set(keys, i as int);
            assert(index[*key] == *account);
            assert(staking_round_next_resolve_time_cache@ =~= start.union_prefer_right(
                times.restrict(keys.take(i + 1).to_set()),
            ));
            let shorter = keys.take(i as int);
            let longer = keys.take(i + 1);
            assert(longer =~= shorter.push(*key));
            assert forall|k: Pubkey| #[trigger] longer.contains(k) <==> shorter.contains(k) || k
                == *key by {
                if longer.contains(k) {
                    let j = choose|j: int| 0 <= j < longer.len() && #[trigger] longer[j] == k;
                    if j < i {
                        assert(shorter[j] == k);
                    }
                }
                if shorter.contains(k) {
                    let j = choose|j: int| 0 <= j < shorter.len() && #[trigger] shorter[j] == k;
                    assert(longer[j] == k);
                }
                if k == *key {
                    assert(longer[i as int] == k);
                }
            }
            let fits = |k: Pubkey|
                resolve_time_fits(current_time, index[k].current_round_start_time, round_min_duration);
            if all_recorded {
                assert forall|k: Pubkey| #[trigger] longer.contains(k) implies fits(k) by {
                    if k != *key {
                        assert(shorter.contains(k));
                    }
                }
            } else if !was_all {
                let k = choose|k: Pubkey| #[trigger] shorter.contains(k) && !fits(k);
                assert(longer.contains(k));
            } else {
                assert(longer.contains(*key) && !fits(*key));
            }
        }
        i = i + 1;
    }
    proof {
        assert(keys.take(i as int) =~= keys);
        assert(times.restrict(keys.to_set()) =~= times);
        lemma_resolve_times_cover_fitting_accounts(index, round_min_duration, current_time);
        assert forall|k: Pubkey| #[trigger] index.dom().contains(k) implies keys.take(
            i as int,
        ).contains(k) by {
            assert(keys.contains(k));
        }
    }
    all_recorded
}

} // verus!
