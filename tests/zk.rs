use harla_zk::api::{Private, ProofQrCode, PublicChain, PublicQr, QrRequest, Relation};
use harla_zk::field::{
    bytes_to_field, compute_mimc7r10_hash, field_from_decimal, field_to_bytes, FieldElement,
};
use harla_zk::zk::{
    circuit_arguments, generate_proof, generate_random_private_key,
    verification_inputs, verify_proof, ProofError,
};

use bellman_ce::groth16::Proof as Groth16Proof;
use bellman_ce::pairing::bn256::Bn256;
use bellman_ce::pairing::CurveAffine;

fn bn128(s: &str) -> FieldElement {
    field_from_decimal(s).unwrap()
}

fn well_formed_proof_bytes() -> Vec<u8> {
    let p = Groth16Proof::<Bn256> {
        a: CurveAffine::one(),
        b: CurveAffine::one(),
        c: CurveAffine::one(),
    };
    let mut out: Vec<u8> = Vec::new();
    p.write(&mut out).unwrap();
    out
}

#[test]
fn mimc7r10() {
    assert_eq!(
        compute_mimc7r10_hash(&bn128("0"), &bn128("0")),
        bn128("6004544488495356385698286530147974336054653445122716140990101827963729149289")
    );
    assert_eq!(
        compute_mimc7r10_hash(&bn128("100"), &bn128("0")),
        bn128("2977550761518141183167168643824354554080911485709001361112529600968315693145")
    );
    assert_eq!(
        compute_mimc7r10_hash(
            &bn128("100"),
            &bn128("21888242871839275222246405745257275088548364400416034343698204186575808495617")
        ),
        bn128("2977550761518141183167168643824354554080911485709001361112529600968315693145")
    );
    assert_eq!(
        compute_mimc7r10_hash(
            &bn128("21888242871839275222246405745257275088548364400416034343698204186575808495618"),
            &bn128("1")
        ),
        bn128("11476724043755138071320043459606423473319855817296339514744600646762741571430")
    );
    assert_eq!(
        compute_mimc7r10_hash(
            &bn128("21888242871839275222246405745257275088548364400416034343698204186575808495617"),
            &bn128("21888242871839275222246405745257275088548364400416034343698204186575808495617")
        ),
        bn128("6004544488495356385698286530147974336054653445122716140990101827963729149289")
    );
}

#[test]
fn generate_prover_key() {
    let m1 = bn128("10046037004840239707202533642544953578314335199439499999912878067091298310375");
    assert_eq!(compute_mimc7r10_hash(&bn128("10000"), &bn128("12")), m1);

    let private = Private {
        birthday: 2001,
        nonce: field_to_bytes(&bn128("7999")),
    };
    let photo_hash = field_to_bytes(&bn128("3"));
    let contract = field_to_bytes(&bn128("4"));
    let key = harla_zk::zk::generate_prover_key(&private, &photo_hash, &contract).unwrap();
    assert_eq!(32, key.len());

    assert_eq!(bytes_to_field(&key).unwrap(), m1);
}

/// Runs the protocol layer around the proving system for one claim: the
/// circuit's threshold matches the one the verifier reads back from the
/// transported proof exactly when the claim is true.
fn test_verification(today: i32, birthday: i32, relation: Relation, delta: i32, result: bool) {
    let m1 = bn128("10046037004840239707202533642544953578314335199439499999912878067091298310375");
    assert_eq!(compute_mimc7r10_hash(&bn128("10000"), &bn128("12")), m1);

    let chain = PublicChain {
        photo_hash: field_to_bytes(&bn128("3")),
        prover_key: field_to_bytes(&m1),
    };

    let rq = QrRequest {
        qr: PublicQr {
            today,
            relation,
            delta,
            contract: field_to_bytes(&bn128("4")),
        },
        chain: chain.clone(),
        private: Private {
            birthday,
            nonce: field_to_bytes(&bn128("7999")),
        },
    };
    assert_eq!(result, rq.is_relation_valid());

    let key = harla_zk::zk::generate_prover_key(&rq.private, &rq.qr.contract, &rq.chain.photo_hash).unwrap();
    // the chain's record was certified for a holder born on day 2001
    assert_eq!(birthday == 2001, key == chain.prover_key);

    let args = circuit_arguments(&rq).unwrap();
    assert_eq!(7, args.len());
    let proved_delta = args[1].clone();

    let p = generate_proof(rq.clone(), Ok(well_formed_proof_bytes())).unwrap();
    assert_eq!(p.public, rq.qr);
    let inputs = verification_inputs(&p, &chain).unwrap();
    assert_eq!(6, inputs.len());
    assert_eq!(result, inputs[0] == proved_delta);

    let pp = ProofQrCode::from_str(&p.to_string()).unwrap();
    assert_eq!(pp, p);
    let inputs = verification_inputs(&pp, &chain).unwrap();
    assert_eq!(result, inputs[0] == proved_delta);
}

#[test]
fn verify_older() {
    test_verification(2020, 2001, Relation::Older, 18, true);
}

#[test]
fn verify_younger() {
    test_verification(2020, 2001, Relation::Younger, 21, true);
}

#[test]
fn verify_invalid() {
    test_verification(2020, 2010, Relation::Older, 18, false);
}

#[test]
fn verify_marginal_case_older() {
    // Equality is refused. Wait till midnight.
    test_verification(2020, 2000, Relation::Older, 20, false);
}

#[test]
fn verify_marginal_case_younger() {
    test_verification(2020, 2000, Relation::Older, 20, false);
}

fn request(today: i32, birthday: i32, relation: Relation, delta: i32) -> QrRequest {
    QrRequest {
        qr: PublicQr {
            today,
            relation,
            delta,
            contract: field_to_bytes(&bn128("4")),
        },
        chain: PublicChain {
            photo_hash: field_to_bytes(&bn128("3")),
            prover_key: field_to_bytes(&bn128("5")),
        },
        private: Private {
            birthday,
            nonce: field_to_bytes(&bn128("7999")),
        },
    }
}

#[test]
fn prover_key_is_deterministic() {
    let private = Private { birthday: 2001, nonce: field_to_bytes(&bn128("7999")) };
    let c = field_to_bytes(&bn128("4"));
    let h = field_to_bytes(&bn128("3"));
    let k1 = harla_zk::zk::generate_prover_key(&private, &c, &h).unwrap();
    let k2 = harla_zk::zk::generate_prover_key(&private, &c, &h).unwrap();
    assert_eq!(k1, k2);
}

#[test]
fn prover_key_changes_with_each_input() {
    let base = Private { birthday: 2001, nonce: field_to_bytes(&bn128("7999")) };
    let c = field_to_bytes(&bn128("4"));
    let h = field_to_bytes(&bn128("3"));
    let k = harla_zk::zk::generate_prover_key(&base, &c, &h).unwrap();

    let other_birthday = Private { birthday: 2002, nonce: base.nonce.clone() };
    assert_ne!(k, harla_zk::zk::generate_prover_key(&other_birthday, &c, &h).unwrap());
    let other_nonce = Private { birthday: 2001, nonce: field_to_bytes(&bn128("8000")) };
    assert_ne!(k, harla_zk::zk::generate_prover_key(&other_nonce, &c, &h).unwrap());
    assert_ne!(k, harla_zk::zk::generate_prover_key(&base, &field_to_bytes(&bn128("5")), &h).unwrap());
    assert_ne!(k, harla_zk::zk::generate_prover_key(&base, &c, &field_to_bytes(&bn128("7"))).unwrap());
}

#[test]
fn prover_key_refuses_malformed_field_bytes() {
    let private = Private { birthday: 2001, nonce: vec![1, 2, 3] };
    let c = field_to_bytes(&bn128("4"));
    let h = field_to_bytes(&bn128("3"));
    assert!(harla_zk::zk::generate_prover_key(&private, &c, &h).is_err());
    let good = Private { birthday: 2001, nonce: field_to_bytes(&bn128("7999")) };
    assert!(harla_zk::zk::generate_prover_key(&good, &vec![0xff; 32], &h).is_err());
}

#[test]
fn threshold_day_is_never_valid() {
    assert!(!request(2020, 2000, Relation::Older, 20).is_relation_valid());
    assert!(!request(2020, 2000, Relation::Younger, 20).is_relation_valid());
    assert!(request(2020, 2000, Relation::Older, 19).is_relation_valid());
    assert!(request(2020, 2000, Relation::Younger, 21).is_relation_valid());
}

#[test]
fn relation_validity_at_the_extremes() {
    assert!(request(i32::MAX, i32::MIN, Relation::Older, i32::MAX).is_relation_valid());
    assert!(request(i32::MIN, i32::MAX, Relation::Younger, i32::MIN).is_relation_valid());
}

#[test]
fn false_claim_is_proved_with_threshold_zero() {
    let args = circuit_arguments(&request(2020, 2010, Relation::Younger, 5)).unwrap();
    assert_eq!(7, args.len());
    assert_eq!(args[0], bn128("2010"));
    assert_eq!(args[1], bn128("0"));
    assert_eq!(args[2], bn128("2020"));
    assert_eq!(args[3], bn128("1"));
    assert_eq!(args[4], bn128("3"));
    assert_eq!(args[5], bn128("4"));
    assert_eq!(args[6], bn128("7999"));
    let older = circuit_arguments(&request(2020, 2010, Relation::Older, 18)).unwrap();
    assert_eq!(older[1], bn128("0"));
    assert_eq!(older[3], bn128("0"));
}

#[test]
fn true_claim_keeps_its_threshold_and_flag() {
    let args = circuit_arguments(&request(2020, 2010, Relation::Younger, 15)).unwrap();
    assert_eq!(args[1], bn128("15"));
    assert_eq!(args[3], bn128("1"));
}

#[test]
fn decoy_has_the_same_shape() {
    let t = generate_proof(request(2020, 2001, Relation::Older, 18), Ok(vec![9; 128])).unwrap();
    let f = generate_proof(request(2020, 2010, Relation::Older, 18), Ok(vec![9; 128])).unwrap();
    assert_eq!(t.proof.len(), f.proof.len());
    assert_eq!(t.to_string().len(), f.to_string().len());
    assert_eq!(
        circuit_arguments(&request(2020, 2001, Relation::Older, 18)).unwrap().len(),
        circuit_arguments(&request(2020, 2010, Relation::Older, 18)).unwrap().len()
    );
}

#[test]
fn negative_day_numbers_wrap_into_the_field() {
    let args = circuit_arguments(&request(-3, -10, Relation::Older, 5)).unwrap();
    assert_eq!(
        args[0],
        bn128("21888242871839275222246405745257275088548364400416034343698204186575808495607")
    );
}

#[test]
fn execution_failure_is_surfaced() {
    let r = generate_proof(request(2020, 2001, Relation::Older, 18), Err(String::from("bad")));
    assert_eq!(r, Err(ProofError::ExecutionFailed(String::from("bad"))));
}

#[test]
fn verification_inputs_take_the_chain_record() {
    let rq = request(2020, 2001, Relation::Younger, 21);
    let p = generate_proof(rq, Ok(vec![1, 2, 3])).unwrap();
    let chain = PublicChain {
        photo_hash: field_to_bytes(&bn128("11")),
        prover_key: field_to_bytes(&bn128("12")),
    };
    let v = verification_inputs(&p, &chain).unwrap();
    assert_eq!(v[0], bn128("21"));
    assert_eq!(v[1], bn128("2020"));
    assert_eq!(v[2], bn128("1"));
    assert_eq!(v[3], bn128("11"));
    assert_eq!(v[4], bn128("4"));
    assert_eq!(v[5], bn128("12"));
}

#[test]
fn verify_rejects_every_failure_alike() {
    let rq = request(2020, 2001, Relation::Older, 18);
    let chain = rq.chain.clone();
    let good = generate_proof(rq.clone(), Ok(well_formed_proof_bytes())).unwrap();
    assert!(verify_proof(&good, &chain, true));
    assert!(!verify_proof(&good, &chain, false));
    let garbled = generate_proof(rq.clone(), Ok(vec![0xff; 128])).unwrap();
    assert!(!verify_proof(&garbled, &chain, true));
    let short = generate_proof(rq, Ok(vec![])).unwrap();
    assert!(!verify_proof(&short, &chain, true));
    let bad_chain = PublicChain { photo_hash: vec![1], prover_key: chain.prover_key.clone() };
    assert!(!verify_proof(&good, &bad_chain, true));
}

#[test]
fn random_private_keys_are_field_elements() {
    let a = generate_random_private_key();
    let b = generate_random_private_key();
    assert_eq!(32, a.len());
    assert!(bytes_to_field(&a).is_ok());
    assert_ne!(a, b);
}
