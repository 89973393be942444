//! Proof of possession of a one-time key: a signature over a fixed challenge.
//!
//! Keys and signatures arrive as text. Reading them and checking a signature
//! is the work of the `near_crypto` crate; what this module decides is how the
//! outcomes of those calls add up to a verdict.

use vstd::prelude::*;

verus! {

/// `near_crypto::Signature`, a signature on either supported curve.
#[verifier::external_type_specification]
#[verifier::external_body]
pub struct ExSignature(near_crypto::Signature);

/// `near_crypto::PublicKey`, a public key on either supported curve.
#[verifier::external_type_specification]
#[verifier::external_body]
pub struct ExPublicKey(near_crypto::PublicKey);

/// `near_crypto::ParseSignatureError`, the reason why a text is no signature.
#[verifier::external_type_specification]
#[verifier::external_body]
pub struct ExParseSignatureError(near_crypto::ParseSignatureError);

/// `near_crypto::ParseKeyError`, the reason why a text is no key.
#[verifier::external_type_specification]
#[verifier::external_body]
pub struct ExParseKeyError(near_crypto::ParseKeyError);

/// What `near_crypto` reads a text as when it is asked for a signature.
pub uninterp spec fn parsed_signature(text: Seq<char>) -> Result<
    near_crypto::Signature,
    near_crypto::ParseSignatureError,
>;

/// What `near_crypto` reads a text as when it is asked for a public key.
pub uninterp spec fn parsed_public_key(text: Seq<char>) -> Result<
    near_crypto::PublicKey,
    near_crypto::ParseKeyError,
>;

/// Whether `near_crypto` accepts `signature` as one made over `message` with
/// the private half of `key`.
pub uninterp spec fn signature_verifies(
    signature: near_crypto::Signature,
    message: Seq<u8>,
    key: near_crypto::PublicKey,
) -> bool;

/// Calls `<near_crypto::Signature as FromStr>::from_str`, which decodes the
/// text and looks at nothing else: its result is what the text reads as.
#[verifier::external_body]
fn parse_signature(text: &str) -> (r: Result<
    near_crypto::Signature,
    near_crypto::ParseSignatureError,
>)
    ensures
        r == parsed_signature(text@),
{
    text.parse::<near_crypto::Signature>()
}

/// Calls `<near_crypto::PublicKey as FromStr>::from_str`, which decodes the
/// text and looks at nothing else: its result is what the text reads as.
#[verifier::external_body]
fn parse_public_key(text: &str) -> (r: Result<near_crypto::PublicKey, near_crypto::ParseKeyError>)
    ensures
        r == parsed_public_key(text@),
{
    text.parse::<near_crypto::PublicKey>()
}

/// Calls `near_crypto::Signature::verify`, which computes on the signature,
/// the message and the key alone, and answers `false` where it cannot check.
#[verifier::external_body]
fn verify_signature(
    signature: &near_crypto::Signature,
    message: &[u8],
    key: &near_crypto::PublicKey,
) -> (r: bool)
    ensures
        r == signature_verifies(*signature, message@, *key),
{
    signature.verify(message, key)
}

/// Length of the challenge in bytes.
pub const CHALLENGE_LEN: usize = 32;

/// The challenge that a redeemer signs: the same for every key and every
/// claim, `CHALLENGE_LEN` zero bytes.
pub open spec fn challenge() -> Seq<u8> {
    Seq::new(CHALLENGE_LEN as nat, |i: int| 0u8)
}

/// Why possession of a key was not shown, or why a claim was not released.
#[derive(Clone, Copy, Debug, PartialEq, Eq, Structural)]
pub enum RedeemError {
    /// No claim is pending for the key.
    NoPendingClaim,
    /// The signature is no signature at all.
    MalformedSignature,
    /// The signature does not validate against the key, or the key is no
    /// key at all.
    InvalidSignature,
}

/// Whether `signature` shows possession of the private half of `key`: both
/// texts read as what they stand for, and the signature is one over the
/// challenge made with that key.
pub open spec fn proves_possession(key: Seq<char>, signature: Seq<char>) -> bool {
    match (parsed_signature(signature), parsed_public_key(key)) {
        (Ok(s), Ok(k)) => signature_verifies(s, challenge(), k),
        _ => false,
    }
}

/// The verdict on `signature` as a proof of possession of `key`, from the
/// outcomes of reading the two texts and of checking the one against the
/// other.
pub open spec fn possession(key: Seq<char>, signature: Seq<char>) -> Result<(), RedeemError> {
    if parsed_signature(signature) is Err {
        Err(RedeemError::MalformedSignature)
    } else if proves_possession(key, signature) {
        Ok(())
    } else {
        Err(RedeemError::InvalidSignature)
    }
}

/// The challenge as bytes.
fn challenge_bytes() -> (bytes: Vec<u8>)
    ensures
        bytes@ == challenge(),
{
    let mut bytes: Vec<u8> = Vec::new();
    while bytes.len() < CHALLENGE_LEN
        invariant
            bytes.len() <= CHALLENGE_LEN,
            forall|i: int| 0 <= i < bytes.len() ==> bytes[i] == 0,
        decreases CHALLENGE_LEN - bytes.len(),
    {
        bytes.push(0);
    }
    assert(bytes@ =~= challenge());
    bytes
}

/// Checks that `signature_str` is a signature over the challenge made with
/// the private key that belongs to `pub_key_str`. The signature is read
/// first: where it is malformed, the key is not looked at.
pub fn check_priv_key(pub_key_str: &String, signature_str: String) -> (r: Result<(), RedeemError>)
    ensures
        r == possession(pub_key_str@, signature_str@),
        r is Ok <==> proves_possession(pub_key_str@, signature_str@),
        r != Err::<(), RedeemError>(RedeemError::NoPendingClaim),
{
    let signature = match parse_signature(signature_str.as_str()) {
        Ok(signature) => signature,
        Err(_) => {
            return Err(RedeemError::MalformedSignature);
        },
    };
    let key = match parse_public_key(pub_key_str.as_str()) {
        Ok(key) => key,
        Err(_) => {
            return Err(RedeemError::InvalidSignature);
        },
    };
    let message = challenge_bytes();
    if verify_signature(&signature, message.as_slice(), &key) {
        Ok(())
    } else {
        Err(RedeemError::InvalidSignature)
    }
}

} // verus!
