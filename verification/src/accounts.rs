use vstd::prelude::*;

use crate::keyed_map::KeyedMap;
use crate::pubkey::Pubkey;

verus! {

/// The fields of a locked stake that the keeper reads.
#[derive(Clone, Copy, Debug, PartialEq, Eq)]
pub struct LockedStake {
    pub id: u64,
    pub amount: u64,
    pub claim_time: i64,
    pub end_time: i64,
}

/// The fields of a `Staking` account that the keeper reads.
#[derive(Clone, Copy, Debug, PartialEq, Eq)]
pub struct Staking {
    /// Start time (Unix seconds) of the current staking round.
    pub current_round_start_time: i64,
}

/// The fields of a `UserStaking` account that the keeper reads.
#[derive(Clone, Debug, PartialEq, Eq)]
pub struct UserStaking {
    pub staking_type: u8,
    pub locked_stakes: Vec<LockedStake>,
}

/// The mathematical value of a `UserStaking` account.
pub struct UserStakingView {
    pub staking_type: u8,
    pub locked_stakes: Seq<LockedStake>,
}

impl View for UserStaking {
    type V = UserStakingView;

    open spec fn view(&self) -> UserStakingView {
        UserStakingView { staking_type: self.staking_type, locked_stakes: self.locked_stakes@ }
    }
}

impl UserStaking {
    /// A copy of the account.
    pub fn copy(&self) -> (copy: UserStaking)
        ensures
            copy@ == self@,
    {
        let mut stakes: Vec<LockedStake> = Vec::new();
        let mut i: usize = 0;
        while i < self.locked_stakes.len()
            invariant
                0 <= i <= self.locked_stakes@.len(),
                stakes@ == self.locked_stakes@.take(i as int),
            decreases self.locked_stakes@.len() - i,
        {
            stakes.push(self.locked_stakes[i]);
            proof {
                assert(self.locked_stakes@.take(i + 1) =~= self.locked_stakes@.take(i as int).push(
                    self.locked_stakes@[i as int],
                ));
            }
            i = i + 1;
        }
        proof {
            assert(self.locked_stakes@.take(i as int) =~= self.locked_stakes@);
        }
        UserStaking { staking_type: self.staking_type, locked_stakes: stakes }
    }
}

/// What an account update did to the index of `Staking` accounts.
pub enum StakingAccountUpdate {
    Created(Staking),
    Modified(Staking),
    Closed,
}

/// What an account update did to the index of `UserStaking` accounts.
pub enum UserStakingAccountUpdate {
    Created(UserStaking),
    Modified(UserStaking),
    Closed,
    /// The account has no staking type yet; the index was left as it was.
    MissingStakingType(UserStaking),
}

/// An account update that could not be applied.
#[derive(Clone, Copy, Debug, PartialEq, Eq)]
pub enum IndexError {
    /// The account data is not empty and does not decode as the expected account.
    UndecodableAccount,
}

/// How the data received for an account changes an index.
#[derive(Clone, Copy, Debug, PartialEq, Eq)]
pub enum UpdateKind {
    /// Empty data: the account was closed.
    Closed,
    /// The data does not decode as the expected account.
    Undecodable,
    /// A `UserStaking` account without a staking type.
    MissingStakingType,
    /// An account that was not indexed.
    Created,
    /// An account that was indexed.
    Modified,
}

/// How data received for a `Staking` account changes the index, given the
/// account decoded from it and whether its key is indexed.
pub open spec fn staking_update_kind(
    data: Seq<u8>,
    decoded: Option<Staking>,
    indexed: bool,
) -> UpdateKind {
    if data.len() == 0 {
        UpdateKind::Closed
    } else if decoded is None {
        UpdateKind::Undecodable
    } else if indexed {
        UpdateKind::Modified
    } else {
        UpdateKind::Created
    }
}

/// How data received for a `UserStaking` account changes the index, given
/// the account decoded from it and whether its key is indexed.
pub open spec fn user_staking_update_kind(
    data: Seq<u8>,
    decoded: Option<UserStaking>,
    indexed: bool,
) -> UpdateKind {
    if data.len() == 0 {
        UpdateKind::Closed
    } else if decoded is None {
        UpdateKind::Undecodable
    } else if decoded->0.staking_type == 0 {
        UpdateKind::MissingStakingType
    } else if indexed {
        UpdateKind::Modified
    } else {
        UpdateKind::Created
    }
}

/// The index of `Staking` accounts after data was received for `key`.
pub open spec fn staking_index_after(
    before: Map<Pubkey, Staking>,
    key: Pubkey,
    data: Seq<u8>,
    decoded: Option<Staking>,
) -> Map<Pubkey, Staking> {
    match staking_update_kind(data, decoded, before.dom().contains(key)) {
        UpdateKind::Closed => before.remove(key),
        UpdateKind::Created | UpdateKind::Modified => before.insert(key, decoded->0),
        _ => before,
    }
}

/// Whether `after` is the index of `UserStaking` accounts `before` once data
/// was received for `key` (accounts are compared by value).
pub open spec fn user_staking_index_updated(
    before: Map<Pubkey, UserStaking>,
    after: Map<Pubkey, UserStaking>,
    key: Pubkey,
    data: Seq<u8>,
    decoded: Option<UserStaking>,
) -> bool {
    match user_staking_update_kind(data, decoded, before.dom().contains(key)) {
        UpdateKind::Closed => after == before.remove(key),
        UpdateKind::Created | UpdateKind::Modified => {
            &&& after.dom() == before.dom().insert(key)
            &&& after[key]@ == decoded->0@
            &&& forall|k: Pubkey| k != key ==> #[trigger] after.get(k) == before.get(k)
        },
        _ => after == before,
    }
}

/// Applies the data received for a `Staking` account to the index.
///
/// `decoded` is the account decoded from `staking_account_data`, or `None`
/// where the data does not decode; it is not read when the data is empty.
/// Empty data means that the account was closed: its entry is removed.
/// Otherwise the decoded account is stored under its key.
pub fn update_indexed_staking_accounts(
    staking_account_key: &Pubkey,
    staking_account_data: &[u8],
    decoded: Option<Staking>,
    indexed_staking_accounts: &mut KeyedMap<Pubkey, Staking>,
) -> (update: Result<StakingAccountUpdate, IndexError>)
    ensures
        final(indexed_staking_accounts)@ == staking_index_after(
            old(indexed_staking_accounts)@,
            *staking_account_key,
            staking_account_data@,
            decoded,
        ),
        match staking_update_kind(
            staking_account_data@,
            decoded,
            old(indexed_staking_accounts)@.dom().contains(*staking_account_key),
        ) {
            UpdateKind::Closed => update matches Ok(StakingAccountUpdate::Closed),
            UpdateKind::Created => update matches Ok(StakingAccountUpdate::Created(a)) && a
                == decoded->0,
            UpdateKind::Modified => update matches Ok(StakingAccountUpdate::Modified(a)) && a
                == decoded->0,
            _ => update matches Err(IndexError::UndecodableAccount),
        },
        staking_account_data@.len() == 0 ==> (update matches Ok(StakingAccountUpdate::Closed))
            && !final(indexed_staking_accounts)@.dom().contains(*staking_account_key),
        staking_account_data@.len() != 0 && decoded is None ==> update is Err && final(indexed_staking_accounts)@ == old(indexed_staking_accounts)@,
        staking_account_data@.len() != 0 && decoded is Some ==> {
            &&& final(indexed_staking_accounts)@.dom().contains(*staking_account_key)
            &&& final(indexed_staking_accounts)@[*staking_account_key] == decoded->0
            &&& old(indexed_staking_accounts)@.dom().contains(*staking_account_key) ==> (update matches Ok(StakingAccountUpdate::Modified(_)))
            &&& !old(indexed_staking_accounts)@.dom().contains(*staking_account_key) ==> (update matches Ok(StakingAccountUpdate::Created(_)))
        },
        forall|k: Pubkey|
            k != *staking_account_key ==> #[trigger] final(indexed_staking_accounts)@.get(k) == old(indexed_staking_accounts)@.get(k),
{
    if staking_account_data.len() == 0 {
        indexed_staking_accounts.remove(staking_account_key);
        return Ok(StakingAccountUpdate::Closed);
    }
    let staking_account = match decoded {
        Some(account) => account,
        None => return Err(IndexError::UndecodableAccount),
    };
    let is_new_staking_account = indexed_staking_accounts.insert(
        *staking_account_key,
        staking_account,
    ).is_none();
    if is_new_staking_account {
        Ok(StakingAccountUpdate::Created(staking_account))
    } else {
        Ok(StakingAccountUpdate::Modified(staking_account))
    }
}

/// Applies the data received for a `UserStaking` account to the index.
///
/// `decoded` is the account decoded from `user_staking_account_data`, or
/// `None` where the data does not decode; it is not read when the data is
/// empty. Empty data means that the account was closed: its entry is removed.
/// An account whose staking type is 0 is reported and not indexed. Otherwise
/// the decoded account is stored under its key.
pub fn update_indexed_user_staking_accounts(
    user_staking_account_key: &Pubkey,
    user_staking_account_data: &[u8],
    decoded: Option<UserStaking>,
    indexed_user_staking_accounts: &mut KeyedMap<Pubkey, UserStaking>,
) -> (update: Result<UserStakingAccountUpdate, IndexError>)
    ensures
        user_staking_index_updated(
            old(indexed_user_staking_accounts)@,
            final(indexed_user_staking_accounts)@,
            *user_staking_account_key,
            user_staking_account_data@,
            decoded,
        ),
        match user_staking_update_kind(
            user_staking_account_data@,
            decoded,
            old(indexed_user_staking_accounts)@.dom().contains(*user_staking_account_key),
        ) {
            UpdateKind::Closed => update matches Ok(UserStakingAccountUpdate::Closed),
            UpdateKind::Created => update matches Ok(UserStakingAccountUpdate::Created(a)) && a@
                == decoded->0@,
            UpdateKind::Modified => update matches Ok(UserStakingAccountUpdate::Modified(a)) && a@
                == decoded->0@,
            UpdateKind::MissingStakingType => update matches Ok(
                UserStakingAccountUpdate::MissingStakingType(a),
            ) && a@ == decoded->0@,
            UpdateKind::Undecodable => update matches Err(IndexError::UndecodableAccount),
        },
        user_staking_account_data@.len() == 0 ==> (update matches Ok(
            UserStakingAccountUpdate::Closed,
        )) && !final(indexed_user_staking_accounts)@.dom().contains(*user_staking_account_key),
        user_staking_account_data@.len() != 0 && decoded is Some && decoded->0.staking_type == 0
            ==> (update matches Ok(UserStakingAccountUpdate::MissingStakingType(_))) && final(indexed_user_staking_accounts)@ == old(indexed_user_staking_accounts)@,
        user_staking_account_data@.len() != 0 && decoded is Some && decoded->0.staking_type != 0
            ==> {
            &&& final(indexed_user_staking_accounts)@.dom().contains(*user_staking_account_key)
            &&& final(indexed_user_staking_accounts)@[*user_staking_account_key]@ == decoded->0@
            &&& old(indexed_user_staking_accounts)@.dom().contains(*user_staking_account_key)
                ==> (update matches Ok(UserStakingAccountUpdate::Modified(_)))
            &&& !old(indexed_user_staking_accounts)@.dom().contains(*user_staking_account_key)
                ==> (update matches Ok(UserStakingAccountUpdate::Created(_)))
        },
        forall|k: Pubkey|
            k != *user_staking_account_key ==> #[trigger] final(indexed_user_staking_accounts)@.get(k) == old(indexed_user_staking_accounts)@.get(k),
{
    if user_staking_account_data.len() == 0 {
        indexed_user_staking_accounts.remove(user_staking_account_key);
        return Ok(UserStakingAccountUpdate::Closed);
    }
    let user_staking_account = match decoded {
        Some(account) => account,
        None => return Err(IndexError::UndecodableAccount),
    };
    if user_staking_account.staking_type == 0 {
        return Ok(UserStakingAccountUpdate::MissingStakingType(user_staking_account));
    }
    let stored = user_staking_account.copy();
    let is_new_user_staking_account = indexed_user_staking_accounts.insert(
        *user_staking_account_key,
        stored,
    ).is_none();
    if is_new_user_staking_account {
        Ok(UserStakingAccountUpdate::Created(user_staking_account))
    } else {
        Ok(UserStakingAccountUpdate::Modified(user_staking_account))
    }
}

} // verus!
