//! The card key, and what goes into and comes out of the proving system.
use vstd::prelude::*;

use bellman_ce::groth16::Proof as Groth16Proof;
use bellman_ce::pairing::bn256::Bn256;

use crate::api::{Private, ProofQrCode, PublicChain, PublicQr, QrRequest, Relation};
use crate::codec::{encode_code, hex_of, lemma_transport_length, CodeView};
use crate::field::{
    be_value, bytes_to_field, compute_mimc7r10_hash, field_add, field_from_i32, field_mul,
    field_of_int, field_to_bytes, is_field_bytes, lemma_be_value_injective, mimc7_r10, modulus,
    random_field_element, DecodeError, FieldElement,
};

verus! {

/// The card key that binds a birthday and a nonce to a photo and a contract:
/// MiMC-7 (ten rounds) of `birthday + nonce`, keyed by `photo_hash * contract`.
pub open spec fn card_key(birthday: int, nonce: nat, photo_hash: nat, contract: nat) -> nat {
    mimc7_r10(
        (field_of_int(birthday) + nonce) % modulus(),
        (photo_hash * contract) % modulus(),
    )
}

/// Whether bytes decode as a Groth16 proof over BN254: three compressed curve
/// points, none at infinity.
pub uninterp spec fn groth16_proof_decodes(b: Seq<u8>) -> bool;

/// Relies on bellman_ce's `groth16::Proof::<Bn256>::read`: whether the bytes
/// begin with a well-formed proof.
#[verifier::external_body]
fn proof_decodes(b: &Vec<u8>) -> (r: bool)
    ensures
        r == groth16_proof_decodes(b@),
{
    Groth16Proof::<Bn256>::read(&b[..]).is_ok()
}

/// The flag that the circuit reads for the relation.
pub open spec fn younger_flag(relation: Relation) -> nat {
    match relation {
        Relation::Younger => 1,
        Relation::Older => 0,
    }
}

/// The threshold that is proved: the one claimed when the claim holds, zero otherwise.
pub open spec fn proved_delta(rq: QrRequest) -> int {
    if rq.claim_holds() {
        rq.qr.delta as int
    } else {
        0
    }
}

/// The circuit's inputs, in the circuit's order: birthday, delta, today, the
/// younger flag, photo hash, contract, nonce.
pub open spec fn circuit_inputs(rq: QrRequest) -> Seq<nat> {
    seq![
        field_of_int(rq.private.birthday as int),
        field_of_int(proved_delta(rq)),
        field_of_int(rq.qr.today as int),
        younger_flag(rq.qr.relation),
        be_value(rq.chain.photo_hash@),
        be_value(rq.qr.contract@),
        be_value(rq.private.nonce@),
    ]
}

/// The circuit's public inputs, in the circuit's order: delta, today, the
/// younger flag, photo hash, contract, prover key.
pub open spec fn public_inputs(qr: PublicQr, chain: PublicChain) -> Seq<nat> {
    seq![
        field_of_int(qr.delta as int),
        field_of_int(qr.today as int),
        younger_flag(qr.relation),
        be_value(chain.photo_hash@),
        be_value(qr.contract@),
        be_value(chain.prover_key@),
    ]
}

/// Whether a vector of field elements holds exactly the given values.
pub open spec fn holds_values(v: Seq<FieldElement>, values: Seq<nat>) -> bool {
    &&& v.len() == values.len()
    &&& forall|i: int| 0 <= i < v.len() ==> (#[trigger] v[i]).wf() && v[i].value() == values[i]
}

/// A proof as plain values, for a claim and proof bytes.
pub open spec fn code_of(qr: PublicQr, proof: Seq<u8>) -> CodeView {
    CodeView {
        today: qr.today as int,
        delta: qr.delta as int,
        relation: qr.relation,
        contract: qr.contract@,
        proof,
    }
}

/// Error of proof generation.
#[derive(Clone, Debug, PartialEq, Eq)]
pub enum ProofError {
    /// The circuit could not be executed on the inputs.
    ExecutionFailed(String),
}

/// Draws a fresh nonce: a random field element in 32 bytes.
pub fn generate_random_private_key() -> (r: Vec<u8>)
    ensures
        is_field_bytes(r@),
{
    let e = random_field_element();
    field_to_bytes(&e)
}

/// The prover key (card key) for a birthday and nonce, a contract and a photo hash.
pub fn generate_prover_key(private: &Private, contract: &Vec<u8>, photo_hash: &Vec<u8>) -> (r:
    Result<Vec<u8>, DecodeError>)
    ensures
        r.is_ok() == (is_field_bytes(private.nonce@) && is_field_bytes(contract@)
            && is_field_bytes(photo_hash@)),
        r.is_ok() ==> is_field_bytes(r.unwrap()@) && be_value(r.unwrap()@) == card_key(
            private.birthday as int,
            be_value(private.nonce@),
            be_value(photo_hash@),
            be_value(contract@),
        ),
{
    let nonce = match bytes_to_field(&private.nonce) {
        Ok(e) => e,
        Err(e) => return Err(e),
    };
    let contract = match bytes_to_field(contract) {
        Ok(e) => e,
        Err(e) => return Err(e),
    };
    let photo_hash = match bytes_to_field(photo_hash) {
        Ok(e) => e,
        Err(e) => return Err(e),
    };
    let birthday = field_from_i32(private.birthday);
    let x = field_add(&birthday, &nonce);
    let k = field_mul(&photo_hash, &contract);
    proof {
        assert(photo_hash.value() * contract.value() == contract.value() * photo_hash.value())
            by (nonlinear_arith);
    }
    let key = compute_mimc7r10_hash(&x, &k);
    Ok(field_to_bytes(&key))
}

/// Appends the field element of a byte field, or fails.
fn push_decoded(v: &mut Vec<FieldElement>, b: &Vec<u8>) -> (r: Result<(), DecodeError>)
    ensures
        r.is_ok() == is_field_bytes(b@),
        r.is_ok() ==> final(v)@.len() == old(v)@.len() + 1 && final(v)@.subrange(
            0,
            old(v)@.len() as int,
        ) == old(v)@ && final(v)@.last().wf() && final(v)@.last().value() == be_value(b@),
{
    match bytes_to_field(b) {
        Ok(e) => {
            v.push(e);
            assert(v@.subrange(0, old(v)@.len() as int) =~= old(v)@);
            Ok(())
        },
        Err(e) => Err(e),
    }
}

/// The circuit's inputs for a request. For a false claim the threshold fed to
/// the circuit is zero, before the circuit sees it; the relation's flag is kept.
/// A proof of the same shape is made whatever the claim, and a false one fails
/// only at verification.
pub fn circuit_arguments(rq: &QrRequest) -> (r: Result<Vec<FieldElement>, DecodeError>)
    ensures
        r.is_ok() == (is_field_bytes(rq.chain.photo_hash@) && is_field_bytes(rq.qr.contract@)
            && is_field_bytes(rq.private.nonce@)),
        r.is_ok() ==> holds_values(r.unwrap()@, circuit_inputs(*rq)),
{
    let delta: i32 = if rq.is_relation_valid() {
        rq.qr.delta
    } else {
        0
    };
    let is_younger: i32 = if rq.qr.relation == Relation::Younger {
        1
    } else {
        0
    };
    let mut v: Vec<FieldElement> = Vec::new();
    v.push(field_from_i32(rq.private.birthday));
    v.push(field_from_i32(delta));
    v.push(field_from_i32(rq.qr.today));
    v.push(field_from_i32(is_younger));
    let ghost head = v@;
    let a = push_decoded(&mut v, &rq.chain.photo_hash);
    if a.is_err() {
        return Err(DecodeError);
    }
    let b = push_decoded(&mut v, &rq.qr.contract);
    if b.is_err() {
        return Err(DecodeError);
    }
    let c = push_decoded(&mut v, &rq.private.nonce);
    if c.is_err() {
        return Err(DecodeError);
    }
    proof {
        let want = circuit_inputs(*rq);
        assert(v@.len() == 7);
        assert forall|i: int| 0 <= i < 7 implies (#[trigger] v@[i]).wf() && v@[i].value()
            == want[i] by {
            if i < 4 {
                assert(v@[i] == head[i]);
            }
        }
    }
    Ok(v)
}

/// Packages what the proving system returned for a request: its proof bytes
/// beside the request's claim, or the execution's failure.
pub fn generate_proof(rq: QrRequest, proving: Result<Vec<u8>, String>) -> (r: Result<
    ProofQrCode,
    ProofError,
>)
    ensures
        r.is_ok() == proving.is_ok(),
        proving.is_ok() ==> r.unwrap()@ == code_of(rq.qr, proving.unwrap()@),
        proving.is_err() ==> r == Err::<ProofQrCode, ProofError>(
            ProofError::ExecutionFailed(proving->Err_0),
        ),
{
    match proving {
        Ok(proof) => Ok(ProofQrCode { public: rq.qr, proof }),
        Err(e) => Err(ProofError::ExecutionFailed(e)),
    }
}

/// The public inputs against which a proof is checked: the claim from the
/// proof itself, the photo hash and prover key from the chain's record.
pub fn verification_inputs(qr: &ProofQrCode, chain: &PublicChain) -> (r: Result<
    Vec<FieldElement>,
    DecodeError,
>)
    ensures
        r.is_ok() == (is_field_bytes(chain.photo_hash@) && is_field_bytes(qr.public.contract@)
            && is_field_bytes(chain.prover_key@)),
        r.is_ok() ==> holds_values(r.unwrap()@, public_inputs(qr.public, *chain)),
{
    let is_younger: i32 = if qr.public.relation == Relation::Younger {
        1
    } else {
        0
    };
    let mut v: Vec<FieldElement> = Vec::new();
    v.push(field_from_i32(qr.public.delta));
    v.push(field_from_i32(qr.public.today));
    v.push(field_from_i32(is_younger));
    let ghost head = v@;
    let a = push_decoded(&mut v, &chain.photo_hash);
    if a.is_err() {
        return Err(DecodeError);
    }
    let b = push_decoded(&mut v, &qr.public.contract);
    if b.is_err() {
        return Err(DecodeError);
    }
    let c = push_decoded(&mut v, &chain.prover_key);
    if c.is_err() {
        return Err(DecodeError);
    }
    proof {
        let want = public_inputs(qr.public, *chain);
        assert(v@.len() == 6);
        assert forall|i: int| 0 <= i < 6 implies (#[trigger] v@[i]).wf() && v@[i].value()
            == want[i] by {
            if i < 3 {
                assert(v@[i] == head[i]);
            }
        }
    }
    Ok(v)
}

/// The verifier's verdict on a proof and the chain's record, given whether the
/// pairing check accepted the proof on `verification_inputs(qr, chain)`. Every
/// failure is the same plain rejection.
pub fn verify_proof(qr: &ProofQrCode, chain: &PublicChain, pairing_accepts: bool) -> (r: bool)
    ensures
        r == (is_field_bytes(chain.photo_hash@) && is_field_bytes(qr.public.contract@)
            && is_field_bytes(chain.prover_key@) && groth16_proof_decodes(qr.proof@)
            && pairing_accepts),
{
    let inputs = verification_inputs(qr, chain);
    if inputs.is_err() {
        return false;
    }
    if !proof_decodes(&qr.proof) {
        return false;
    }
    pairing_accepts
}

/// The card key is a function of its inputs: two 32-byte encodings that both
/// meet the contract of `generate_prover_key` on the same inputs are equal.
pub proof fn lemma_card_key_deterministic(
    k1: Seq<u8>,
    k2: Seq<u8>,
    birthday: int,
    nonce: nat,
    photo_hash: nat,
    contract: nat,
)
    requires
        is_field_bytes(k1),
        is_field_bytes(k2),
        be_value(k1) == card_key(birthday, nonce, photo_hash, contract),
        be_value(k2) == card_key(birthday, nonce, photo_hash, contract),
    ensures
        k1 == k2,
{
    lemma_be_value_injective(k1, k2);
}

/// For a true claim, the verifier rebuilds from the proof and the chain's
/// record exactly the public values that the prover fed to the circuit.
pub proof fn lemma_true_claim_inputs_agree(rq: QrRequest)
    requires
        rq.claim_holds(),
    ensures
        public_inputs(rq.qr, rq.chain).subrange(0, 5) =~= circuit_inputs(rq).subrange(1, 6),
{
}

/// For a false claim with a nonzero threshold, the threshold fed to the
/// circuit differs from the one the verifier reads from the proof.
pub proof fn lemma_false_claim_inputs_differ(rq: QrRequest)
    requires
        !rq.claim_holds(),
        rq.qr.delta != 0,
    ensures
        circuit_inputs(rq)[1] != public_inputs(rq.qr, rq.chain)[0],
{
    let d = rq.qr.delta as int;
    let m = modulus() as int;
    assert(field_of_int(0) == 0);
    if d > 0 {
        assert(field_of_int(d) == d) by {
            vstd::arithmetic::div_mod::lemma_small_mod(d as nat, m as nat);
        }
    } else {
        assert(field_of_int(d) == m + d) by {
            vstd::arithmetic::div_mod::lemma_fundamental_div_mod(d, m);
        }
    }
}

/// A false claim gives an artifact of the same shape as a true one: seven
/// circuit inputs in the field either way, and, for proof bytes of one length
/// from the proving system, proofs whose transport strings have one length.
pub proof fn lemma_decoy_same_shape(rq1: QrRequest, rq2: QrRequest, b1: Seq<u8>, b2: Seq<u8>)
    requires
        rq1.claim_holds(),
        !rq2.claim_holds(),
        is_field_bytes(rq1.chain.photo_hash@),
        is_field_bytes(rq1.qr.contract@),
        is_field_bytes(rq1.private.nonce@),
        is_field_bytes(rq2.chain.photo_hash@),
        is_field_bytes(rq2.qr.contract@),
        is_field_bytes(rq2.private.nonce@),
        b1.len() == b2.len(),
    ensures
        circuit_inputs(rq1).len() == 7,
        circuit_inputs(rq2).len() == 7,
        forall|i: int| 0 <= i < 7 ==> #[trigger] circuit_inputs(rq1)[i] < modulus(),
        forall|i: int| 0 <= i < 7 ==> #[trigger] circuit_inputs(rq2)[i] < modulus(),
        code_of(rq1.qr, b1).proof.len() == code_of(rq2.qr, b2).proof.len(),
        hex_of(encode_code(code_of(rq1.qr, b1))).len() == hex_of(
            encode_code(code_of(rq2.qr, b2)),
        ).len(),
{
    lemma_inputs_in_field(rq1);
    lemma_inputs_in_field(rq2);
    lemma_transport_length(code_of(rq1.qr, b1));
    lemma_transport_length(code_of(rq2.qr, b2));
}

proof fn lemma_inputs_in_field(rq: QrRequest)
    requires
        is_field_bytes(rq.chain.photo_hash@),
        is_field_bytes(rq.qr.contract@),
        is_field_bytes(rq.private.nonce@),
    ensures
        forall|i: int| 0 <= i < 7 ==> #[trigger] circuit_inputs(rq)[i] < modulus(),
{
    let m = modulus() as int;
    assert forall|i: int| 0 <= i < 7 implies #[trigger] circuit_inputs(rq)[i] < modulus() by {
        vstd::arithmetic::div_mod::lemma_mod_bound(rq.private.birthday as int, m);
        vstd::arithmetic::div_mod::lemma_mod_bound(proved_delta(rq), m);
        vstd::arithmetic::div_mod::lemma_mod_bound(rq.qr.today as int, m);
    }
}

} // verus!
