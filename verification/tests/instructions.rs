use staking_keeper::instructions::{create_resolve_staking_round_ix, ProgramAddresses};
use staking_keeper::pubkey::Pubkey;

fn key(n: u8) -> Pubkey {
    Pubkey([n; 32])
}

#[test]
fn resolve_staking_round_accounts_are_wired() {
    let addresses = ProgramAddresses {
        cortex: key(20),
        lm_token_mint: key(21),
        fee_redistribution_mint: key(22),
        adrena_program: key(23),
        system_program: key(24),
        token_program: key(25),
    };
    let (_, accounts) =
        create_resolve_staking_round_ix(&key(1), key(2), &key(3), &key(4), &key(5), &key(6), &addresses);
    assert_eq!(accounts.caller, key(1));
    assert_eq!(accounts.payer, key(1));
    assert_eq!(accounts.transfer_authority, key(2));
    assert_eq!(accounts.staking, key(3));
    assert_eq!(accounts.staking_staked_token_vault, key(4));
    assert_eq!(accounts.staking_reward_token_vault, key(5));
    assert_eq!(accounts.staking_lm_reward_token_vault, key(6));
    assert_eq!(accounts.cortex, key(20));
    assert_eq!(accounts.lm_token_mint, key(21));
    assert_eq!(accounts.fee_redistribution_mint, key(22));
    assert_eq!(accounts.adrena_program, key(23));
    assert_eq!(accounts.system_program, key(24));
    assert_eq!(accounts.token_program, key(25));
}
