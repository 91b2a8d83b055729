use sha2::{Digest, Sha256};
use staking_keeper::discriminator::derive_discriminator;

fn expected(name: &str) -> [u8; 8] {
    let hash = Sha256::digest(format!("account:{}", name).as_bytes());
    let mut out = [0u8; 8];
    out.copy_from_slice(&hash[..8]);
    out
}

#[test]
fn discriminator_is_the_hash_prefix_of_the_account_name() {
    assert_eq!(derive_discriminator("Staking"), expected("Staking"));
    assert_eq!(derive_discriminator("UserStaking"), expected("UserStaking"));
}

#[test]
fn discriminator_of_empty_name_hashes_the_prefix_alone() {
    // SHA-256("account:") starts with these bytes.
    let hash = Sha256::digest(b"account:");
    assert_eq!(derive_discriminator("")[..], hash[..8]);
}

#[test]
fn discriminators_of_different_accounts_differ() {
    assert_ne!(derive_discriminator("Staking"), derive_discriminator("UserStaking"));
    assert_ne!(derive_discriminator("Staking"), [0u8; 8]);
}
