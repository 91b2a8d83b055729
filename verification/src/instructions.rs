use vstd::prelude::*;

use crate::pubkey::Pubkey;

verus! {

/// Addresses fixed by the deployment that the instructions refer to.
#[derive(Clone, Copy, Debug, PartialEq, Eq)]
pub struct ProgramAddresses {
    /// The protocol's `Cortex` account.
    pub cortex: Pubkey,
    /// The mint of the token that liquidity-mining rewards are paid in.
    pub lm_token_mint: Pubkey,
    /// The mint of the token that fees are redistributed in.
    pub fee_redistribution_mint: Pubkey,
    /// The staking program.
    pub adrena_program: Pubkey,
    /// The system program.
    pub system_program: Pubkey,
    /// The SPL token program.
    pub token_program: Pubkey,
}

/// The arguments of the instruction that resolves a staking round (it has none).
#[derive(Clone, Copy, Debug, PartialEq, Eq)]
pub struct ResolveStakingRoundArgs {}

/// The accounts of the instruction that resolves a staking round.
#[derive(Clone, Copy, Debug, PartialEq, Eq)]
pub struct ResolveStakingRoundAccounts {
    pub caller: Pubkey,
    pub payer: Pubkey,
    pub staking_staked_token_vault: Pubkey,
    pub staking_reward_token_vault: Pubkey,
    pub staking_lm_reward_token_vault: Pubkey,
    pub transfer_authority: Pubkey,
    pub staking: Pubkey,
    pub cortex: Pubkey,
    pub lm_token_mint: Pubkey,
    pub fee_redistribution_mint: Pubkey,
    pub adrena_program: Pubkey,
    pub system_program: Pubkey,
    pub token_program: Pubkey,
}

/// Builds the instruction that resolves the current round of a `Staking`
/// account: the payer both calls and pays, and the fixed addresses come from
/// `addresses`.
pub fn create_resolve_staking_round_ix(
    payer: &Pubkey,
    transfer_authority_pda: Pubkey,
    staking_pda: &Pubkey,
    staking_staked_token_vault_pda: &Pubkey,
    staking_reward_token_vault_pda: &Pubkey,
    staking_lm_reward_token_vault_pda: &Pubkey,
    addresses: &ProgramAddresses,
) -> (ix: (ResolveStakingRoundArgs, ResolveStakingRoundAccounts))
    ensures
        ix.1 == (ResolveStakingRoundAccounts {
            caller: *payer,
            payer: *payer,
            staking_staked_token_vault: *staking_staked_token_vault_pda,
            staking_reward_token_vault: *staking_reward_token_vault_pda,
            staking_lm_reward_token_vault: *staking_lm_reward_token_vault_pda,
            transfer_authority: transfer_authority_pda,
            staking: *staking_pda,
            cortex: addresses.cortex,
            lm_token_mint: addresses.lm_token_mint,
            fee_redistribution_mint: addresses.fee_redistribution_mint,
            adrena_program: addresses.adrena_program,
            system_program: addresses.system_program,
            token_program: addresses.token_program,
        }),
{
    let args = ResolveStakingRoundArgs {  };
    let resolve_staking_round = ResolveStakingRoundAccounts {
        caller: *payer,
        payer: *payer,
        staking_staked_token_vault: *staking_staked_token_vault_pda,
        staking_reward_token_vault: *staking_reward_token_vault_pda,
        staking_lm_reward_token_vault: *staking_lm_reward_token_vault_pda,
        transfer_authority: transfer_authority_pda,
        staking: *staking_pda,
        cortex: addresses.cortex,
        lm_token_mint: addresses.lm_token_mint,
        fee_redistribution_mint: addresses.fee_redistribution_mint,
        adrena_program: addresses.adrena_program,
        system_program: addresses.system_program,
        token_program: addresses.token_program,
    };
    (args, resolve_staking_round)
}

} // verus!
