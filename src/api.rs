//! The protocol's data model and the claim's validity.
use vstd::prelude::*;

verus! {

/// Which side of the threshold the holder claims to be on.
#[derive(Clone, Copy, Debug, PartialEq, Eq, Structural)]
pub enum Relation {
    Older,
    Younger,
}

/// What only the prover knows: the birthday (a day number) and the nonce that
/// the certifier drew (a field element's 32-byte encoding).
#[derive(Clone, Debug, PartialEq, Eq)]
pub struct Private {
    pub birthday: i32,
    pub nonce: Vec<u8>,
}

/// The claim, as it travels inside the proof.
#[derive(Clone, Debug, PartialEq, Eq)]
pub struct PublicQr {
    pub today: i32,
    pub contract: Vec<u8>,
    pub delta: i32,
    pub relation: Relation,
}

/// What a verifier reads from the record of the chain.
#[derive(Clone, Debug, PartialEq, Eq)]
pub struct PublicChain {
    pub photo_hash: Vec<u8>,
    pub prover_key: Vec<u8>,
}

/// All that one proof is made from.
#[derive(Clone, Debug, PartialEq, Eq)]
pub struct QrRequest {
    pub qr: PublicQr,
    pub chain: PublicChain,
    pub private: Private,
}

/// The transportable proof: the public claim and the proof's bytes.
#[derive(Clone, Debug, PartialEq, Eq)]
pub struct ProofQrCode {
    pub public: PublicQr,
    pub proof: Vec<u8>,
}

/// Whether a holder born on `birthday` stands, on `today`, strictly on the
/// claimed side of a threshold of `delta` days.
pub open spec fn relation_holds(birthday: int, today: int, delta: int, relation: Relation) -> bool {
    match relation {
        Relation::Older => today - birthday > delta,
        Relation::Younger => today - birthday < delta,
    }
}

impl QrRequest {
    pub open spec fn claim_holds(&self) -> bool {
        relation_holds(
            self.private.birthday as int,
            self.qr.today as int,
            self.qr.delta as int,
            self.qr.relation,
        )
    }

    /// Whether the claim is true; the threshold day itself never counts.
    pub fn is_relation_valid(&self) -> (r: bool)
        ensures
            r == self.claim_holds(),
    {
        let age: i64 = self.qr.today as i64 - self.private.birthday as i64;
        let delta: i64 = self.qr.delta as i64;
        match self.qr.relation {
            Relation::Older => age > delta,
            Relation::Younger => age < delta,
        }
    }
}

/// On the threshold day itself neither claim holds.
pub proof fn lemma_threshold_day_is_never_valid(birthday: int, delta: int, relation: Relation)
    ensures
        !relation_holds(birthday, birthday + delta, delta, relation),
{
}

} // verus!
