use mooncake::linkdrop::{Linkdrop, Linkdrops};
use mooncake::signature::{check_priv_key, RedeemError};
use near_crypto::{KeyType, SecretKey};

const CHALLENGE: [u8; 32] = [0u8; 32];

fn key(seed: &str) -> String {
    SecretKey::from_seed(KeyType::ED25519, seed).public_key().to_string()
}

fn signature(seed: &str) -> String {
    SecretKey::from_seed(KeyType::ED25519, seed).sign(&CHALLENGE).to_string()
}

fn claim(token: &str, approval_id: u64) -> Linkdrop {
    Linkdrop { token: token.to_string(), approval_id }
}

#[test]
fn test_linkdrop_init() {
    let mut drops = Linkdrops::new();
    assert_eq!(drops.get_drop(&key("k"), signature("k")), Err(RedeemError::NoPendingClaim));
}

#[test]
fn register_then_redeem_returns_the_claim() {
    let k = key("one-time");
    let mut drops = Linkdrops::new();
    drops.add_drop(&k, &"asset-5".to_string(), 42);
    assert_eq!(drops.get_drop(&k, signature("one-time")), Ok(claim("asset-5", 42)));

    assert_eq!(drops.get_drop(&k, signature("another")), Err(RedeemError::InvalidSignature));

    drops.remove_drop(&k);
    assert_eq!(drops.get_drop(&k, signature("one-time")), Err(RedeemError::NoPendingClaim));
    assert_eq!(drops.get_drop(&k, signature("one-time")), Err(RedeemError::NoPendingClaim));
}

#[test]
fn redeeming_leaves_the_claim_pending() {
    let k = key("one-time");
    let mut drops = Linkdrops::new();
    drops.add_drop(&k, &"asset-5".to_string(), 42);
    for _ in 0..3 {
        assert_eq!(drops.get_drop(&k, signature("one-time")), Ok(claim("asset-5", 42)));
    }
}

#[test]
fn registering_again_discards_the_earlier_claim() {
    let k = key("one-time");
    let mut drops = Linkdrops::new();
    drops.add_drop(&k, &"asset-5".to_string(), 42);
    drops.add_drop(&k, &"asset-6".to_string(), 7);
    assert_eq!(drops.get_drop(&k, signature("one-time")), Ok(claim("asset-6", 7)));
}

#[test]
fn claims_are_kept_apart_by_key() {
    let mut drops = Linkdrops::new();
    drops.add_drop(&key("a"), &"asset-a".to_string(), 1);
    drops.add_drop(&key("b"), &"asset-b".to_string(), 2);
    assert_eq!(drops.get_drop(&key("a"), signature("a")), Ok(claim("asset-a", 1)));
    assert_eq!(drops.get_drop(&key("b"), signature("b")), Ok(claim("asset-b", 2)));
    assert_eq!(drops.get_drop(&key("a"), signature("b")), Err(RedeemError::InvalidSignature));
    drops.remove_drop(&key("a"));
    assert_eq!(drops.get_drop(&key("a"), signature("a")), Err(RedeemError::NoPendingClaim));
    assert_eq!(drops.get_drop(&key("b"), signature("b")), Ok(claim("asset-b", 2)));
}

#[test]
fn revoking_nothing_is_no_error() {
    let mut drops = Linkdrops::new();
    drops.remove_drop(&key("a"));
    drops.add_drop(&key("a"), &"asset-a".to_string(), 1);
    drops.remove_drop(&key("b"));
    assert_eq!(drops.get_drop(&key("a"), signature("a")), Ok(claim("asset-a", 1)));
}

#[test]
fn a_signature_that_is_none_is_malformed() {
    let k = key("one-time");
    let mut drops = Linkdrops::new();
    drops.add_drop(&k, &"asset-5".to_string(), 42);
    for text in ["", "not a signature", "ed25519:", "ed25519:abc", "rsa:abc", "ed25519:0OIl"] {
        assert_eq!(drops.get_drop(&k, text.to_string()), Err(RedeemError::MalformedSignature));
    }
    assert_eq!(drops.get_drop(&k, k.clone()), Err(RedeemError::MalformedSignature));
    assert_eq!(drops.get_drop(&k, signature("one-time")), Ok(claim("asset-5", 42)));
}

#[test]
fn a_key_that_is_none_can_be_registered_but_never_redeemed() {
    let k = "no key at all".to_string();
    let mut drops = Linkdrops::new();
    drops.add_drop(&k, &"asset-5".to_string(), 42);
    assert_eq!(drops.get_drop(&k, signature("one-time")), Err(RedeemError::InvalidSignature));
    assert_eq!(drops.release(&k, Ok(())), Ok(claim("asset-5", 42)));
}

#[test]
fn a_signature_over_another_message_is_invalid() {
    let k = key("one-time");
    let secret = SecretKey::from_seed(KeyType::ED25519, "one-time");
    let mut drops = Linkdrops::new();
    drops.add_drop(&k, &"asset-5".to_string(), 42);
    let over_ones = secret.sign(&[1u8; 32]).to_string();
    assert_eq!(drops.get_drop(&k, over_ones), Err(RedeemError::InvalidSignature));
    let over_short = secret.sign(&[0u8; 31]).to_string();
    assert_eq!(drops.get_drop(&k, over_short), Err(RedeemError::InvalidSignature));
}

#[test]
fn the_other_curve_is_accepted_too() {
    let secret = SecretKey::from_seed(KeyType::SECP256K1, "one-time");
    let k = secret.public_key().to_string();
    let mut drops = Linkdrops::new();
    drops.add_drop(&k, &"asset-5".to_string(), 42);
    let good = secret.sign(&CHALLENGE).to_string();
    assert_eq!(drops.get_drop(&k, good), Ok(claim("asset-5", 42)));
    assert_eq!(drops.get_drop(&k, signature("one-time")), Err(RedeemError::InvalidSignature));
}

#[test]
fn check_priv_key_gives_the_verdict() {
    let k = key("one-time");
    assert_eq!(check_priv_key(&k, signature("one-time")), Ok(()));
    assert_eq!(check_priv_key(&k, signature("another")), Err(RedeemError::InvalidSignature));
    assert_eq!(check_priv_key(&k, "junk".to_string()), Err(RedeemError::MalformedSignature));
    assert_eq!(
        check_priv_key(&"junk".to_string(), signature("one-time")),
        Err(RedeemError::InvalidSignature)
    );
    assert_eq!(
        check_priv_key(&"junk".to_string(), "junk".to_string()),
        Err(RedeemError::MalformedSignature)
    );
    assert_eq!(
        check_priv_key(&"ed25519:DcA2MzgpJbrUATQLLceocVckhhAqrkingax4oJ9kZ847".to_string(), signature("test")),
        Ok(())
    );
}

#[test]
fn release_goes_by_the_verdict_first() {
    let k = "K".to_string();
    let mut drops = Linkdrops::new();
    assert_eq!(drops.release(&k, Ok(())), Err(RedeemError::NoPendingClaim));
    assert_eq!(
        drops.release(&k, Err(RedeemError::MalformedSignature)),
        Err(RedeemError::MalformedSignature)
    );
    drops.add_drop(&k, &"asset-5".to_string(), 42);
    assert_eq!(drops.release(&k, Ok(())), Ok(claim("asset-5", 42)));
    assert_eq!(
        drops.release(&k, Err(RedeemError::InvalidSignature)),
        Err(RedeemError::InvalidSignature)
    );
    assert_eq!(
        drops.release(&k, Err(RedeemError::MalformedSignature)),
        Err(RedeemError::MalformedSignature)
    );
    drops.remove_drop(&k);
    assert_eq!(drops.release(&k, Ok(())), Err(RedeemError::NoPendingClaim));
}

#[test]
fn claim_and_consume_releases_once() {
    let k = key("one-time");
    let mut drops = Linkdrops::new();
    drops.add_drop(&k, &"asset-5".to_string(), 42);
    assert_eq!(
        drops.claim_and_consume(&k, signature("another")),
        Err(RedeemError::InvalidSignature)
    );
    assert_eq!(
        drops.claim_and_consume(&k, "junk".to_string()),
        Err(RedeemError::MalformedSignature)
    );
    assert_eq!(drops.claim_and_consume(&k, signature("one-time")), Ok(claim("asset-5", 42)));
    assert_eq!(
        drops.claim_and_consume(&k, signature("one-time")),
        Err(RedeemError::NoPendingClaim)
    );
    assert_eq!(drops.get_drop(&k, signature("one-time")), Err(RedeemError::NoPendingClaim));
}
