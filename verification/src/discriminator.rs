use sha2::Digest;
use vstd::prelude::*;
use vstd::string::StringSliceAdditionalSpecFns;

verus! {

/// The SHA-256 digest of a byte string.
pub uninterp spec fn sha256(data: Seq<u8>) -> Seq<u8>;

/// Calls `sha2::Sha256::digest`. Trusted: the result is the SHA-256 digest of
/// `data` (a function of `data` alone, named `sha256`), and it is 32 bytes long.
#[verifier::external_body]
fn sha256_digest(data: &[u8]) -> (digest: Vec<u8>)
    ensures
        digest@ == sha256(data@),
        digest@.len() == 32,
{
    sha2::Sha256::digest(data).to_vec()
}

/// The bytes of the prefix `account:` that account discriminators hash.
pub open spec fn account_prefix() -> Seq<u8> {
    seq![97u8, 99u8, 99u8, 111u8, 117u8, 110u8, 116u8, 58u8]
}

/// The discriminator of an account named `name` (its UTF-8 bytes): the first
/// eight bytes of the SHA-256 digest of `account:<name>`.
pub open spec fn spec_discriminator(name: Seq<u8>) -> Seq<u8> {
    sha256(account_prefix() + name).take(8)
}

/// The 8-byte identifier of an account type: the first 8 bytes of the SHA-256
/// hash of the string `account:<AccountName>`.
pub fn derive_discriminator(account_name: &str) -> (discriminator: [u8; 8])
    ensures
        discriminator@ == spec_discriminator(account_name.spec_bytes()),
        sha256(account_prefix() + account_name.spec_bytes()).len() == 32,
{
    let name = account_name.as_bytes();
    let mut preimage: Vec<u8> = vec![97u8, 99u8, 99u8, 111u8, 117u8, 110u8, 116u8, 58u8];
    let mut i: usize = 0;
    while i < name.len()
        invariant
            0 <= i <= name@.len(),
            name@ == account_name.spec_bytes(),
            preimage@ == account_prefix() + name@.take(i as int),
        decreases name@.len() - i,
    {
        preimage.push(name[i]);
        proof {
            assert(name@.take(i + 1) == name@.take(i as int).push(name@[i as int]));
        }
        i = i + 1;
    }
    proof {
        assert(name@.take(name@.len() as int) == name@);
    }
    let hash = sha256_digest(preimage.as_slice());
    let discriminator: [u8; 8] = [hash[0], hash[1], hash[2], hash[3], hash[4], hash[5], hash[6], hash[7]];
    proof {
        assert(discriminator@ =~= hash@.take(8));
    }
    discriminator
}

} // verus!
