//! Elements of the BN254 scalar field, held as 32 big-endian bytes.
use vstd::prelude::*;

use bellman_ce::pairing::bn256::{Fr, FrRepr};
use bellman_ce::pairing::ff::{Field as FfField, PrimeField, PrimeFieldRepr};
use num_bigint::{BigInt, BigUint, Sign};
use rand::{Rng, SeedableRng};

verus! {

/// Width in bytes of an encoded field element.
pub const FIELD_BYTES: usize = 32;

/// The prime order of the field.
pub open spec fn modulus() -> nat {
    21888242871839275222246405745257275088548364400416034343698204186575808495617nat
}

/// The number that a byte sequence spells in big-endian order.
pub open spec fn be_value(s: Seq<u8>) -> nat
    decreases s.len(),
{
    if s.len() == 0 {
        0
    } else {
        be_value(s.drop_last()) * 256 + s.last() as nat
    }
}

/// `256` raised to `n`.
pub open spec fn pow256(n: nat) -> nat
    decreases n,
{
    if n == 0 {
        1
    } else {
        256 * pow256((n - 1) as nat)
    }
}

/// A canonical encoding: exactly 32 bytes, below the modulus.
pub open spec fn is_field_bytes(s: Seq<u8>) -> bool {
    s.len() == FIELD_BYTES && be_value(s) < modulus()
}

/// The field element that an integer stands for.
pub open spec fn field_of_int(i: int) -> nat {
    (i % (modulus() as int)) as nat
}

/// The value of a decimal digit character.
pub open spec fn digit_value(c: char) -> nat {
    (c as u32 - '0' as u32) as nat
}

pub open spec fn is_digit(c: char) -> bool {
    '0' <= c && c <= '9'
}

/// The number that a string of decimal digits spells.
pub open spec fn decimal_value(s: Seq<char>) -> nat
    decreases s.len(),
{
    if s.len() == 0 {
        0
    } else {
        decimal_value(s.drop_last()) * 10 + digit_value(s.last())
    }
}

/// A decimal numeral: digits only, not empty, no leading zero but for "0" itself.
pub open spec fn is_decimal(s: Seq<char>) -> bool {
    &&& s.len() > 0
    &&& forall|i: int| 0 <= i < s.len() ==> is_digit(#[trigger] s[i])
    &&& (s.len() == 1 || s[0] != '0')
}

/// The character of a digit below ten.
pub open spec fn digit_char(d: nat) -> char {
    ('0' as u32 + d) as char
}

/// The shortest decimal numeral of `n`.
pub open spec fn decimal_of(n: nat) -> Seq<char>
    decreases n,
{
    if n < 10 {
        seq![digit_char(n)]
    } else {
        decimal_of(n / 10).push(digit_char(n % 10))
    }
}

/// The MiMC-7 keyed permutation over the field with ten rounds, on key `k`.
pub uninterp spec fn mimc7_r10(x: nat, k: nat) -> nat;

/// An element of the field, as its canonical 32-byte big-endian encoding.
#[derive(Clone, Debug, PartialEq, Eq)]
pub struct FieldElement {
    pub bytes: Vec<u8>,
}

impl FieldElement {
    pub open spec fn wf(&self) -> bool {
        is_field_bytes(self.bytes@)
    }

    pub open spec fn value(&self) -> nat {
        be_value(self.bytes@)
    }
}

/// Error for a byte or decimal encoding that names no field element.
#[derive(Clone, Copy, Debug, PartialEq, Eq)]
pub struct DecodeError;

/// Relies on ff's `PrimeField::from_repr` for `FrRepr::from(u64)` and on
/// `PrimeFieldRepr::write_be`: the element `n`, written in 32 big-endian bytes.
#[verifier::external_body]
fn fr_from_u64(n: u64) -> (r: FieldElement)
    ensures
        r.wf(),
        r.value() == n,
{
    let x = Fr::from_repr(FrRepr::from(n)).unwrap();
    let mut out: Vec<u8> = Vec::new();
    x.into_repr().write_be(&mut out).unwrap();
    FieldElement { bytes: out }
}

/// Relies on ff's `Field::negate` on bn256 `Fr`: zero stays zero, any other
/// element `a` becomes `modulus - a`.
#[verifier::external_body]
fn fr_negate(a: &FieldElement) -> (r: FieldElement)
    requires
        a.wf(),
    ensures
        r.wf(),
        r.value() == (if a.value() == 0 { 0 } else { modulus() - a.value() }),
{
    let mut ra = FrRepr::default();
    ra.read_be(&a.bytes[..]).unwrap();
    let mut x = Fr::from_repr(ra).unwrap();
    x.negate();
    let mut out: Vec<u8> = Vec::new();
    x.into_repr().write_be(&mut out).unwrap();
    FieldElement { bytes: out }
}

/// Relies on ff's `Field::add_assign` on bn256 `Fr`: addition modulo the prime.
#[verifier::external_body]
fn fr_add(a: &FieldElement, b: &FieldElement) -> (r: FieldElement)
    requires
        a.wf(),
        b.wf(),
    ensures
        r.wf(),
        r.value() == (a.value() + b.value()) % modulus(),
{
    let mut ra = FrRepr::default();
    ra.read_be(&a.bytes[..]).unwrap();
    let mut rb = FrRepr::default();
    rb.read_be(&b.bytes[..]).unwrap();
    let mut x = Fr::from_repr(ra).unwrap();
    x.add_assign(&Fr::from_repr(rb).unwrap());
    let mut out: Vec<u8> = Vec::new();
    x.into_repr().write_be(&mut out).unwrap();
    FieldElement { bytes: out }
}

/// Relies on ff's `Field::mul_assign` on bn256 `Fr`: multiplication modulo the prime.
#[verifier::external_body]
fn fr_mul(a: &FieldElement, b: &FieldElement) -> (r: FieldElement)
    requires
        a.wf(),
        b.wf(),
    ensures
        r.wf(),
        r.value() == (a.value() * b.value()) % modulus(),
{
    let mut ra = FrRepr::default();
    ra.read_be(&a.bytes[..]).unwrap();
    let mut rb = FrRepr::default();
    rb.read_be(&b.bytes[..]).unwrap();
    let mut x = Fr::from_repr(ra).unwrap();
    x.mul_assign(&Fr::from_repr(rb).unwrap());
    let mut out: Vec<u8> = Vec::new();
    x.into_repr().write_be(&mut out).unwrap();
    FieldElement { bytes: out }
}

/// Relies on `PrimeFieldRepr::read_be` and `PrimeField::from_repr` on bn256
/// `Fr`: 32 bytes decode exactly when their number is below the modulus.
#[verifier::external_body]
fn fr_check(b: &Vec<u8>) -> (r: bool)
    requires
        b@.len() == FIELD_BYTES,
    ensures
        r == (be_value(b@) < modulus()),
{
    let mut repr = FrRepr::default();
    repr.read_be(&b[..]).unwrap();
    Fr::from_repr(repr).is_ok()
}

/// Relies on ff's `PrimeField::from_str` on bn256 `Fr`: a decimal numeral without
/// leading zeroes is read modulo the prime, anything else is refused.
#[verifier::external_body]
fn fr_from_str(s: &str) -> (r: Option<FieldElement>)
    ensures
        r.is_some() == is_decimal(s@),
        r.is_some() ==> r.unwrap().wf() && r.unwrap().value() == decimal_value(s@) % modulus(),
{
    match Fr::from_str(s) {
        Some(x) => {
            let mut out: Vec<u8> = Vec::new();
            x.into_repr().write_be(&mut out).unwrap();
            Some(FieldElement { bytes: out })
        },
        None => None,
    }
}

/// Relies on num-bigint's `BigUint::from_bytes_be` and `BigUint::to_str_radix`
/// with radix ten: the shortest decimal numeral of the number.
#[verifier::external_body]
fn biguint_decimal(b: &Vec<u8>) -> (r: String)
    ensures
        r@ == decimal_of(be_value(b@)),
{
    BigUint::from_bytes_be(&b[..]).to_str_radix(10)
}

/// Relies on mimc-rs's `mimc7_hash_generic` with ten rounds over the prime
/// `m`: the result, reduced modulo the prime, in minimal big-endian bytes.
#[verifier::external_body]
fn mimc7_hash_r10(m: &Vec<u8>, x: &FieldElement, k: &FieldElement) -> (r: Vec<u8>)
    requires
        be_value(m@) == modulus(),
        x.wf(),
        k.wf(),
    ensures
        1 <= r@.len() <= FIELD_BYTES,
        be_value(r@) == mimc7_r10(x.value(), k.value()),
        be_value(r@) < modulus(),
{
    let p = BigInt::from_bytes_be(Sign::Plus, &m[..]);
    let xi = BigInt::from_bytes_be(Sign::Plus, &x.bytes[..]);
    let ki = BigInt::from_bytes_be(Sign::Plus, &k.bytes[..]);
    mimc_rs::mimc7_hash_generic(&p, &xi, &ki, 10).to_bytes_be().1
}

/// Relies on rand's `ChaChaRng`, seeded from `thread_rng`, drawing a bn256 `Fr`:
/// some element of the field.
#[verifier::external_body]
fn fr_random() -> (r: FieldElement)
    ensures
        r.wf(),
{
    let seed = rand::thread_rng().gen::<[u32; 4]>();
    let mut rng = rand::ChaChaRng::from_seed(&seed);
    let x: Fr = rng.gen();
    let mut out: Vec<u8> = Vec::new();
    x.into_repr().write_be(&mut out).unwrap();
    FieldElement { bytes: out }
}

/// A run of `n` zero bytes.
pub open spec fn zeros(n: nat) -> Seq<u8> {
    Seq::new(n, |i: int| 0u8)
}

pub proof fn lemma_be_value_append(a: Seq<u8>, b: Seq<u8>)
    ensures
        be_value(a + b) == be_value(a) * pow256(b.len()) + be_value(b),
    decreases b.len(),
{
    if b.len() == 0 {
        assert(a + b =~= a);
        assert(be_value(a) * 1 == be_value(a));
    } else {
        let c = b.drop_last();
        assert((a + b).drop_last() =~= a + c);
        lemma_be_value_append(a, c);
        assert(pow256(b.len()) == 256 * pow256(c.len()));
        assert(be_value(a + b) == be_value(a + c) * 256 + b.last() as nat);
        assert(be_value(b) == be_value(c) * 256 + b.last() as nat);
        let (va, vc, pc) = (be_value(a) as int, be_value(c) as int, pow256(c.len()) as int);
        assert((va * pc + vc) * 256 == va * (256 * pc) + vc * 256) by (nonlinear_arith);
        assert(be_value(a + b) == va * (256 * pc) + vc * 256 + b.last() as nat);
        assert(be_value(a + b) == va * pow256(b.len()) + be_value(b));
    }
}

pub proof fn lemma_zeros_value(n: nat)
    ensures
        be_value(zeros(n)) == 0,
    decreases n,
{
    if n > 0 {
        assert(zeros(n).drop_last() =~= zeros((n - 1) as nat));
        lemma_zeros_value((n - 1) as nat);
    }
}

/// Two encodings of one length that spell the same number are the same bytes.
pub proof fn lemma_be_value_injective(a: Seq<u8>, b: Seq<u8>)
    requires
        a.len() == b.len(),
        be_value(a) == be_value(b),
    ensures
        a == b,
    decreases a.len(),
{
    if a.len() > 0 {
        let (pa, pb) = (be_value(a.drop_last()), be_value(b.drop_last()));
        let (la, lb) = (a.last() as int, b.last() as int);
        assert(pa * 256 + la == pb * 256 + lb);
        assert(la == lb && pa == pb) by (nonlinear_arith)
            requires
                pa * 256 + la == pb * 256 + lb,
                0 <= la < 256,
                0 <= lb < 256,
                pa >= 0,
                pb >= 0,
        ;
        lemma_be_value_injective(a.drop_last(), b.drop_last());
        assert(a =~= a.drop_last().push(a.last()));
        assert(b =~= b.drop_last().push(b.last()));
    }
}

/// The modulus in 32 big-endian bytes.
fn modulus_bytes() -> (r: Vec<u8>)
    ensures
        be_value(r@) == modulus(),
        r@.len() == FIELD_BYTES,
{
    let r: Vec<u8> = vec![
        48u8, 100, 78, 114, 225, 49, 160, 41, 184, 80, 69, 182, 129, 129, 88, 93,
        40, 51, 232, 72, 121, 185, 112, 145, 67, 225, 245, 147, 240, 0, 0, 1,
    ];
    proof {
        reveal_with_fuel(be_value, 33);
    }
    r
}

/// Left-pads a big-endian encoding with zero bytes to the field's width.
fn pad_to_field_width(b: Vec<u8>) -> (r: Vec<u8>)
    requires
        b@.len() <= FIELD_BYTES,
    ensures
        r@.len() == FIELD_BYTES,
        be_value(r@) == be_value(b@),
{
    let mut r: Vec<u8> = Vec::new();
    let pad: usize = FIELD_BYTES - b.len();
    while r.len() < pad
        invariant
            pad == FIELD_BYTES - b@.len(),
            r@.len() <= pad,
            r@ == zeros(r@.len() as nat),
        decreases pad - r@.len(),
    {
        r.push(0u8);
        assert(r@ =~= zeros(r@.len() as nat));
    }
    let ghost z = r@;
    let mut i: usize = 0;
    while i < b.len()
        invariant
            z == zeros(pad as nat),
            pad + b@.len() == FIELD_BYTES,
            0 <= i <= b@.len(),
            r@ == z + b@.subrange(0, i as int),
        decreases b@.len() - i,
    {
        r.push(b[i]);
        i = i + 1;
        assert(r@ =~= z + b@.subrange(0, i as int));
    }
    proof {
        assert(b@.subrange(0, b@.len() as int) =~= b@);
        lemma_be_value_append(z, b@);
        lemma_zeros_value(pad as nat);
    }
    r
}

/// Reads a field element from its 32-byte big-endian encoding; fails on any
/// other length and on a number at or above the modulus.
pub fn bytes_to_field(b: &Vec<u8>) -> (r: Result<FieldElement, DecodeError>)
    ensures
        r.is_ok() == is_field_bytes(b@),
        r.is_ok() ==> r.unwrap().bytes@ == b@,
{
    if b.len() != FIELD_BYTES {
        return Err(DecodeError);
    }
    if fr_check(b) {
        Ok(FieldElement { bytes: b.clone() })
    } else {
        Err(DecodeError)
    }
}

/// The 32-byte big-endian encoding of a field element.
pub fn field_to_bytes(e: &FieldElement) -> (r: Vec<u8>)
    ensures
        r@ == e.bytes@,
{
    e.bytes.clone()
}

/// A non-empty string of decimal digits.
pub open spec fn is_digits(s: Seq<char>) -> bool {
    s.len() > 0 && forall|i: int| 0 <= i < s.len() ==> is_digit(#[trigger] s[i])
}

/// `10` raised to `n`.
pub open spec fn pow10(n: nat) -> nat
    decreases n,
{
    if n == 0 {
        1
    } else {
        10 * pow10((n - 1) as nat)
    }
}

pub proof fn lemma_decimal_value_append(a: Seq<char>, b: Seq<char>)
    ensures
        decimal_value(a + b) == decimal_value(a) * pow10(b.len()) + decimal_value(b),
    decreases b.len(),
{
    if b.len() == 0 {
        assert(a + b =~= a);
        assert(decimal_value(a) * 1 == decimal_value(a));
    } else {
        let c = b.drop_last();
        assert((a + b).drop_last() =~= a + c);
        lemma_decimal_value_append(a, c);
        assert(decimal_value(a + b) == decimal_value(a + c) * 10 + digit_value(b.last()));
        assert(decimal_value(b) == decimal_value(c) * 10 + digit_value(b.last()));
        let (va, vc, pc) = (decimal_value(a) as int, decimal_value(c) as int, pow10(
            c.len(),
        ) as int);
        assert((va * pc + vc) * 10 == va * (10 * pc) + vc * 10) by (nonlinear_arith);
        assert(decimal_value(a + b) == va * (10 * pc) + vc * 10 + digit_value(b.last()));
    }
}

pub proof fn lemma_decimal_value_zeros(a: Seq<char>)
    requires
        forall|i: int| 0 <= i < a.len() ==> #[trigger] a[i] == '0',
    ensures
        decimal_value(a) == 0,
    decreases a.len(),
{
    if a.len() > 0 {
        lemma_decimal_value_zeros(a.drop_last());
    }
}

/// Reads a string of decimal digits, leading zeros allowed, reduced modulo
/// the prime; anything else is refused.
pub fn field_from_decimal(s: &str) -> (r: Result<FieldElement, DecodeError>)
    ensures
        r.is_ok() == is_digits(s@),
        r.is_ok() ==> r.unwrap().wf() && r.unwrap().value() == decimal_value(s@) % modulus(),
{
    let n: usize = s.unicode_len();
    if n == 0 {
        return Err(DecodeError);
    }
    let mut i: usize = 0;
    while i + 1 < n && s.get_char(i) == '0'
        invariant
            n == s@.len(),
            i < n,
            forall|j: int| 0 <= j < i ==> #[trigger] s@[j] == '0',
        decreases n - i,
    {
        i = i + 1;
    }
    let t = s.substring_char(i, n);
    proof {
        let z = s@.subrange(0, i as int);
        assert(s@ =~= z + t@);
        lemma_decimal_value_append(z, t@);
        lemma_decimal_value_zeros(z);
        assert(decimal_value(s@) == decimal_value(t@));
        assert(t@.len() == 1 || t@[0] != '0');
        if is_digits(s@) {
            assert forall|j: int| 0 <= j < t@.len() implies is_digit(#[trigger] t@[j]) by {
                assert(t@[j] == s@[j + i]);
            }
        }
        if is_decimal(t@) {
            assert forall|j: int| 0 <= j < s@.len() implies is_digit(#[trigger] s@[j]) by {
                if j >= i {
                    assert(s@[j] == t@[j - i]);
                }
            }
        }
    }
    match fr_from_str(t) {
        Some(e) => Ok(e),
        None => Err(DecodeError),
    }
}

/// The shortest decimal numeral of a field element.
pub fn field_to_decimal(e: &FieldElement) -> (r: String)
    requires
        e.wf(),
    ensures
        r@ == decimal_of(e.value()),
{
    biguint_decimal(&e.bytes)
}

/// The field element that a signed integer stands for.
pub fn field_from_i32(i: i32) -> (r: FieldElement)
    ensures
        r.wf(),
        r.value() == field_of_int(i as int),
{
    if i >= 0 {
        fr_from_u64(i as u64)
    } else {
        let n = fr_from_u64((0 - (i as i64)) as u64);
        let r = fr_negate(&n);
        assert(field_of_int(i as int) == modulus() + i) by {
            vstd::arithmetic::div_mod::lemma_fundamental_div_mod(i as int, modulus() as int);
            assert((i as int) / (modulus() as int) == -1) by {
                vstd::arithmetic::div_mod::lemma_div_is_ordered_by_denominator(1, 2, 3);
            }
        }
        r
    }
}

/// The sum of two field elements.
pub fn field_add(a: &FieldElement, b: &FieldElement) -> (r: FieldElement)
    requires
        a.wf(),
        b.wf(),
    ensures
        r.wf(),
        r.value() == (a.value() + b.value()) % modulus(),
{
    fr_add(a, b)
}

/// The product of two field elements.
pub fn field_mul(a: &FieldElement, b: &FieldElement) -> (r: FieldElement)
    requires
        a.wf(),
        b.wf(),
    ensures
        r.wf(),
        r.value() == (a.value() * b.value()) % modulus(),
{
    fr_mul(a, b)
}

/// MiMC-7 with ten rounds of `x` under key `k`.
pub fn compute_mimc7r10_hash(x: &FieldElement, k: &FieldElement) -> (r: FieldElement)
    requires
        x.wf(),
        k.wf(),
    ensures
        r.wf(),
        r.value() == mimc7_r10(x.value(), k.value()),
{
    let m = modulus_bytes();
    let h = mimc7_hash_r10(&m, x, k);
    FieldElement { bytes: pad_to_field_width(h) }
}

/// A field element drawn at random.
pub fn random_field_element() -> (r: FieldElement)
    ensures
        r.wf(),
{
    fr_random()
}

} // verus!
