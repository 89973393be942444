//! Identifiers of the assets of the 2022 edition.
//!
//! Each asset of the edition is minted from a seed of random bytes, and named
//! after that seed.

use vstd::prelude::*;
use vstd::string::StringExecFns;

verus! {

/// The least deposit that mints an asset of the edition: one NEAR, in
/// yoctoNEAR.
pub const MINT_DEPOSIT: u128 = 1_000_000_000_000_000_000_000_000;

/// Whether `deposit` is enough to mint an asset of the edition.
pub fn covers_mint(deposit: u128) -> (ok: bool)
    ensures
        ok == (deposit >= MINT_DEPOSIT),
{
    deposit >= MINT_DEPOSIT
}

/// The Base58 text of `bytes` in the Bitcoin alphabet, as the `bs58` crate
/// writes it.
pub uninterp spec fn base58_text(bytes: Seq<u8>) -> Seq<char>;

/// Calls `bs58::encode`, with the Bitcoin alphabet, and `into_string` on what
/// it returns. The text is computed from the bytes alone.
#[verifier::external_body]
fn base58(bytes: &[u8]) -> (text: String)
    ensures
        text@ == base58_text(bytes@),
{
    near_sdk::bs58::encode(bytes).with_alphabet(near_sdk::bs58::Alphabet::BITCOIN).into_string()
}

/// The identifier of the asset whose seed is written `encoded`: the year of
/// the edition, a hyphen, and the seed.
pub open spec fn edition_id_of(encoded: Seq<char>) -> Seq<char> {
    "2022-"@ + encoded
}

/// The identifier of the asset whose seed is written `encoded`.
pub fn edition_id(encoded: &str) -> (id: String)
    ensures
        id@ == edition_id_of(encoded@),
{
    let mut id = "2022-".to_owned();
    id.append(encoded);
    id
}

/// The identifier of the asset minted from `seed`.
pub fn token_id_2022(seed: &[u8]) -> (id: String)
    ensures
        id@ == edition_id_of(base58_text(seed@)),
{
    let encoded = base58(seed);
    edition_id(encoded.as_str())
}

} // verus!
