//! The claim engine: pending claims, each released against proof of
//! possession of the one-time key that it was registered under.

use vstd::prelude::*;
use vstd::hash_map::StringHashMap;
use crate::signature::check_priv_key;
use crate::signature::possession;
use crate::signature::proves_possession;
use crate::signature::RedeemError;

verus! {

/// A pending claim, as the contracts see it.
pub struct Claim {
    /// The asset that the claim authorizes transferring.
    pub token: Seq<char>,
    /// The approval that lets the custodian transfer it.
    pub approval_id: u64,
}

/// A pending claim: an asset, and the approval under which the custodian may
/// transfer it.
#[derive(Debug, PartialEq, Eq)]
pub struct Linkdrop {
    /// The asset that the claim authorizes transferring.
    pub token: String,
    /// The approval that lets the custodian transfer it.
    pub approval_id: u64,
}

impl Clone for Linkdrop {
    fn clone(&self) -> (copy: Self)
        ensures
            copy@ == self@,
    {
        Linkdrop { token: self.token.clone(), approval_id: self.approval_id }
    }
}

impl View for Linkdrop {
    type V = Claim;

    open spec fn view(&self) -> Claim {
        Claim { token: self.token@, approval_id: self.approval_id }
    }
}

/// The outcome of a redemption, the claim taken as the contracts see it.
pub open spec fn claim_of(r: Result<Linkdrop, RedeemError>) -> Result<Claim, RedeemError> {
    match r {
        Ok(drop) => Ok(drop@),
        Err(e) => Err(e),
    }
}

/// What a redemption returns: the verdict on the signature decides first, and
/// an accepted signature releases the claim that is pending for the key.
pub open spec fn redeemed(
    claims: Map<Seq<char>, Claim>,
    key: Seq<char>,
    verdict: Result<(), RedeemError>,
) -> Result<Claim, RedeemError> {
    match verdict {
        Err(e) => Err(e),
        Ok(_) => if claims.contains_key(key) {
            Ok(claims[key])
        } else {
            Err(RedeemError::NoPendingClaim)
        },
    }
}

/// A claim that has just been registered is what an accepted signature
/// releases, whatever was pending under the key before.
pub proof fn lemma_registered_redeems(claims: Map<Seq<char>, Claim>, key: Seq<char>, claim: Claim)
    ensures
        redeemed(claims.insert(key, claim), key, Ok(())) == Ok::<Claim, RedeemError>(claim),
{
}

/// Once a claim has been revoked, no redemption under its key succeeds,
/// whatever the signature.
pub proof fn lemma_revoked_never_redeems(
    claims: Map<Seq<char>, Claim>,
    key: Seq<char>,
    verdict: Result<(), RedeemError>,
)
    ensures
        redeemed(claims.remove(key), key, verdict) is Err,
{
}

/// A redemption succeeds exactly when a claim is pending for the key and the
/// signature proves possession of it; it then returns that claim.
pub proof fn lemma_redeemed_iff(claims: Map<Seq<char>, Claim>, key: Seq<char>, signature: Seq<char>)
    ensures
        redeemed(claims, key, possession(key, signature)) is Ok <==> claims.contains_key(key)
            && proves_possession(key, signature),
        redeemed(claims, key, possession(key, signature)) matches Ok(claim) ==> claim == claims[key],
{
}

/// The claim engine.
pub struct Linkdrops {
    pending_drops: StringHashMap<Linkdrop>,
}

impl View for Linkdrops {
    type V = Map<Seq<char>, Claim>;

    closed spec fn view(&self) -> Map<Seq<char>, Claim> {
        self.pending_drops@.map_values(|drop: Linkdrop| drop@)
    }
}

impl Linkdrops {
    /// An engine with no pending claim.
    pub fn new() -> (drops: Self)
        ensures
            drops@ == Map::<Seq<char>, Claim>::empty(),
    {
        let drops = Linkdrops { pending_drops: StringHashMap::new() };
        assert(drops@ =~= Map::<Seq<char>, Claim>::empty());
        drops
    }

    /// Registers a claim on the asset `token_id` under the one-time key
    /// `pub_key`. A claim already pending under that key is discarded.
    pub fn add_drop(&mut self, pub_key: &String, token_id: &String, approval_id: u64)
        ensures
            final(self)@ == old(self)@.insert(
                pub_key@,
                Claim { token: token_id@, approval_id: approval_id },
            ),
    {
        self.pending_drops.insert(
            pub_key.clone(),
            Linkdrop { token: token_id.clone(), approval_id },
        );
        assert(self@ =~= old(self)@.insert(
            pub_key@,
            Claim { token: token_id@, approval_id: approval_id },
        ));
    }

    /// Redeems the claim pending under `pub_key` against `signature`, which
    /// has to be one over the challenge made with the private half of the
    /// key. The claim stays pending: removing it is `remove_drop`.
    pub fn get_drop(&mut self, pub_key: &String, signature: String) -> (r: Result<
        Linkdrop,
        RedeemError,
    >)
        ensures
            final(self)@ == old(self)@,
            claim_of(r) == redeemed(old(self)@, pub_key@, possession(pub_key@, signature@)),
            r is Ok <==> old(self)@.contains_key(pub_key@) && proves_possession(
                pub_key@,
                signature@,
            ),
    {
        let verdict = check_priv_key(pub_key, signature);
        self.release(pub_key, verdict)
    }

    /// Releases the claim pending under `pub_key` on the strength of
    /// `verdict`, the outcome of checking a signature against that key. The
    /// verdict is taken on trust: whoever passes `Ok` vouches for the
    /// signature.
    pub fn release(&self, pub_key: &String, verdict: Result<(), RedeemError>) -> (r: Result<
        Linkdrop,
        RedeemError,
    >)
        ensures
            claim_of(r) == redeemed(self@, pub_key@, verdict),
    {
        match verdict {
            Err(e) => Err(e),
            Ok(_) => match self.pending_drops.get(pub_key.as_str()) {
                Some(drop) => Ok(drop.clone()),
                None => Err(RedeemError::NoPendingClaim),
            },
        }
    }

    /// Redeems the claim pending under `pub_key` and revokes it in the same
    /// step, so that the signature that released it releases nothing a second
    /// time. Where the redemption fails, nothing changes.
    pub fn claim_and_consume(&mut self, pub_key: &String, signature: String) -> (r: Result<
        Linkdrop,
        RedeemError,
    >)
        ensures
            claim_of(r) == redeemed(old(self)@, pub_key@, possession(pub_key@, signature@)),
            r is Ok ==> final(self)@ == old(self)@.remove(pub_key@),
            r is Err ==> final(self)@ == old(self)@,
    {
        let r = self.get_drop(pub_key, signature);
        if r.is_ok() {
            self.remove_drop(pub_key);
        }
        r
    }

    /// Revokes the claim pending under `pub_key`, if there is one.
    pub fn remove_drop(&mut self, pub_key: &String)
        ensures
            final(self)@ == old(self)@.remove(pub_key@),
            !old(self)@.contains_key(pub_key@) ==> final(self)@ == old(self)@,
    {
        self.pending_drops.remove(pub_key.as_str());
        assert(self@ =~= old(self)@.remove(pub_key@));
        assert(!old(self)@.contains_key(pub_key@) ==> old(self)@.remove(pub_key@) =~= old(self)@);
    }
}

} // verus!
