//! The transport form of a proof: its fields in bytes, written out in hex.
//!
//! Byte layout: `today` and `delta`, each as four big-endian bytes of the value
//! plus 2^31; one byte for the relation (0 older, 1 younger); the contract's
//! length in eight big-endian bytes; the contract; the proof bytes to the end.
use vstd::prelude::*;

use crate::api::{ProofQrCode, PublicQr, Relation};
use crate::field::{be_value, lemma_be_value_append, pow256};

verus! {

/// Error for a string that is no transport form of a proof.
#[derive(Clone, Copy, Debug, PartialEq, Eq)]
pub struct ParseError;

/// A proof as plain values.
pub struct CodeView {
    pub today: int,
    pub delta: int,
    pub relation: Relation,
    pub contract: Seq<u8>,
    pub proof: Seq<u8>,
}

impl View for ProofQrCode {
    type V = CodeView;

    open spec fn view(&self) -> CodeView {
        CodeView {
            today: self.public.today as int,
            delta: self.public.delta as int,
            relation: self.public.relation,
            contract: self.public.contract@,
            proof: self.proof@,
        }
    }
}

pub open spec fn i32_offset() -> int {
    0x8000_0000
}

/// Four big-endian bytes of a number below 2^32.
pub open spec fn be4(u: nat) -> Seq<u8> {
    seq![
        (u / 0x100_0000) as u8,
        ((u / 0x1_0000) % 256) as u8,
        ((u / 256) % 256) as u8,
        (u % 256) as u8,
    ]
}

pub open spec fn relation_byte(r: Relation) -> u8 {
    match r {
        Relation::Older => 0,
        Relation::Younger => 1,
    }
}

/// Header bytes before the contract.
pub open spec fn header_len() -> int {
    17
}

/// The byte form of a proof.
pub open spec fn encode_code(v: CodeView) -> Seq<u8> {
    be4((v.today + i32_offset()) as nat) + be4((v.delta + i32_offset()) as nat) + seq![
        relation_byte(v.relation),
    ] + be8(v.contract.len()) + v.contract + v.proof
}

/// Eight big-endian bytes of a number below 2^64.
pub open spec fn be8(u: nat) -> Seq<u8> {
    be4(u / 0x1_0000_0000) + be4(u % 0x1_0000_0000)
}

/// The eight bytes at `i`, read as a big-endian number.
pub open spec fn be8_at(b: Seq<u8>, i: int) -> nat {
    be_value(b.subrange(i, i + 8))
}

/// The four bytes at `i`, read as a big-endian number.
pub open spec fn be4_at(b: Seq<u8>, i: int) -> nat {
    be_value(b.subrange(i, i + 4))
}

/// The proof that a byte form stands for, if any.
pub open spec fn decode_code(b: Seq<u8>) -> Option<CodeView> {
    if b.len() < header_len() || b[8] > 1 || header_len() + be8_at(b, 9) > b.len() {
        None
    } else {
        let end = header_len() + be8_at(b, 9);
        Some(
            CodeView {
                today: be4_at(b, 0) - i32_offset(),
                delta: be4_at(b, 4) - i32_offset(),
                relation: if b[8] == 0 {
                    Relation::Older
                } else {
                    Relation::Younger
                },
                contract: b.subrange(header_len(), end),
                proof: b.subrange(end, b.len() as int),
            },
        )
    }
}

/// The lower-case hex digit of a value below sixteen.
pub open spec fn hex_digit(n: nat) -> char {
    if n < 10 {
        ('0' as u32 + n) as char
    } else {
        ('a' as u32 + n - 10) as char
    }
}

pub open spec fn is_hex_char(c: char) -> bool {
    ('0' <= c && c <= '9') || ('a' <= c && c <= 'f') || ('A' <= c && c <= 'F')
}

/// The value of a hex digit of either case.
pub open spec fn hex_char_value(c: char) -> nat {
    if '0' <= c && c <= '9' {
        (c as u32 - '0' as u32) as nat
    } else if 'a' <= c && c <= 'f' {
        (c as u32 - 'a' as u32 + 10) as nat
    } else {
        (c as u32 - 'A' as u32 + 10) as nat
    }
}

/// Two lower-case hex digits for each byte, high digit first.
pub open spec fn hex_of(b: Seq<u8>) -> Seq<char>
    decreases b.len(),
{
    if b.len() == 0 {
        Seq::empty()
    } else {
        hex_of(b.drop_last()) + seq![
            hex_digit(b.last() as nat / 16),
            hex_digit(b.last() as nat % 16),
        ]
    }
}

/// An even number of hex digits of either case.
pub open spec fn is_hex(s: Seq<char>) -> bool {
    s.len() % 2 == 0 && forall|i: int| 0 <= i < s.len() ==> is_hex_char(#[trigger] s[i])
}

/// The bytes that a string of hex digit pairs spells.
pub open spec fn bytes_of_hex(s: Seq<char>) -> Seq<u8>
    decreases s.len(),
{
    if s.len() < 2 {
        Seq::empty()
    } else {
        let n = s.len() - 2;
        bytes_of_hex(s.subrange(0, n)).push(
            (hex_char_value(s[n]) * 16 + hex_char_value(s[n + 1])) as u8,
        )
    }
}

/// Relies on hex's `encode`: two lower-case hex digits for each byte.
#[verifier::external_body]
fn hex_encode(b: &Vec<u8>) -> (r: String)
    ensures
        r@ == hex_of(b@),
{
    hex::encode(b)
}

/// Relies on hex's `decode`: an even number of hex digits of either case gives
/// the bytes they spell; anything else is an error.
#[verifier::external_body]
fn hex_decode(s: &str) -> (r: Option<Vec<u8>>)
    ensures
        r.is_some() == is_hex(s@),
        r.is_some() ==> r.unwrap()@ == bytes_of_hex(s@),
{
    hex::decode(s).ok()
}

proof fn lemma_be4(u: nat)
    requires
        u < 0x1_0000_0000,
    ensures
        be_value(be4(u)) == u,
        be4(u).len() == 4,
{
    let s = be4(u);
    reveal_with_fuel(be_value, 5);
    assert(s.drop_last().drop_last().drop_last().drop_last() =~= Seq::<u8>::empty());
    let (a, b, c, d) = (u / 0x100_0000, (u / 0x1_0000) % 256, (u / 256) % 256, u % 256);
    assert(((a * 256 + b) * 256 + c) * 256 + d == u) by (nonlinear_arith)
        requires
            a == u / 0x100_0000,
            b == (u / 0x1_0000) % 256,
            c == (u / 256) % 256,
            d == u % 256,
            u < 0x1_0000_0000,
    ;
}

proof fn lemma_be8(u: nat)
    requires
        u <= u64::MAX,
    ensures
        be_value(be8(u)) == u,
        be8(u).len() == 8,
{
    let (hi, lo) = (u / 0x1_0000_0000, u % 0x1_0000_0000);
    assert(u == hi * 0x1_0000_0000 + lo) by {
        vstd::arithmetic::div_mod::lemma_fundamental_div_mod(u as int, 0x1_0000_0000);
    }
    assert(hi < 0x1_0000_0000) by (nonlinear_arith)
        requires
            u == hi * 0x1_0000_0000 + lo,
            lo >= 0,
            u <= u64::MAX,
    ;
    lemma_be4(hi);
    lemma_be4(lo);
    lemma_be_value_append(be4(hi), be4(lo));
    reveal_with_fuel(pow256, 5);
    assert(pow256(4) == 0x1_0000_0000);
}

proof fn lemma_hex_round_trip(b: Seq<u8>)
    ensures
        is_hex(hex_of(b)),
        bytes_of_hex(hex_of(b)) == b,
        hex_of(b).len() == 2 * b.len(),
    decreases b.len(),
{
    if b.len() > 0 {
        let p = b.drop_last();
        lemma_hex_round_trip(p);
        let h = hex_of(b);
        let x = b.last() as nat;
        assert(h.subrange(0, h.len() - 2) =~= hex_of(p));
        assert(hex_char_value(hex_digit(x / 16)) == x / 16);
        assert(hex_char_value(hex_digit(x % 16)) == x % 16);
        assert(h[h.len() - 2] == hex_digit(x / 16));
        assert(h[h.len() - 1] == hex_digit(x % 16));
        assert((x / 16) * 16 + x % 16 == x);
        assert(b =~= p.push(b.last()));
        assert forall|i: int| 0 <= i < h.len() implies is_hex_char(#[trigger] h[i]) by {
            if i < h.len() - 2 {
                assert(h[i] == hex_of(p)[i]);
            }
        }
    }
}

/// A transport form read back gives the proof that was written.
pub proof fn lemma_transport_round_trip(v: CodeView)
    requires
        i32::MIN <= v.today <= i32::MAX,
        i32::MIN <= v.delta <= i32::MAX,
        v.contract.len() <= u64::MAX,
    ensures
        is_hex(hex_of(encode_code(v))),
        decode_code(bytes_of_hex(hex_of(encode_code(v)))) == Some(v),
{
    let b = encode_code(v);
    lemma_hex_round_trip(b);
    lemma_be4((v.today + i32_offset()) as nat);
    lemma_be4((v.delta + i32_offset()) as nat);
    lemma_be8(v.contract.len());
    assert(b.subrange(0, 4) =~= be4((v.today + i32_offset()) as nat));
    assert(b.subrange(4, 8) =~= be4((v.delta + i32_offset()) as nat));
    assert(b.subrange(9, 17) =~= be8(v.contract.len()));
    let end: int = 17 + v.contract.len() as int;
    assert(b.subrange(17, end) =~= v.contract);
    assert(b.subrange(end, b.len() as int) =~= v.proof);
    let d = decode_code(b).unwrap();
    assert(d.relation == v.relation);
}

/// The transport string's length depends on the lengths of the contract and
/// of the proof bytes alone, never on the claim's values.
pub proof fn lemma_transport_length(v: CodeView)
    ensures
        encode_code(v).len() == header_len() + v.contract.len() + v.proof.len(),
        hex_of(encode_code(v)).len() == 2 * (header_len() + v.contract.len() + v.proof.len()),
{
    lemma_hex_round_trip(encode_code(v));
}

/// Appends the four big-endian bytes of `u`.
fn push_be4(out: &mut Vec<u8>, u: u32)
    ensures
        final(out)@ == old(out)@ + be4(u as nat),
{
    out.push((u / 0x100_0000) as u8);
    out.push(((u / 0x1_0000) % 256) as u8);
    out.push(((u / 256) % 256) as u8);
    out.push((u % 256) as u8);
    assert(final(out)@ =~= old(out)@ + be4(u as nat));
}

/// Appends the eight big-endian bytes of `u`.
fn push_be8(out: &mut Vec<u8>, u: u64)
    ensures
        final(out)@ == old(out)@ + be8(u as nat),
{
    push_be4(out, (u / 0x1_0000_0000) as u32);
    push_be4(out, (u % 0x1_0000_0000) as u32);
    assert(final(out)@ =~= old(out)@ + be8(u as nat));
}

/// Reads the eight big-endian bytes at `i`.
fn read_be8(b: &Vec<u8>, i: usize) -> (r: u64)
    requires
        i + 8 <= b@.len(),
    ensures
        r == be8_at(b@, i as int),
{
    let n: usize = b.len();
    assert(i + 8 <= n);
    let hi = read_be4(b, i);
    let lo = read_be4(b, i + 4);
    proof {
        let (sh, sl) = (b@.subrange(i as int, i + 4), b@.subrange(i + 4, i + 8));
        assert(b@.subrange(i as int, i + 8) =~= sh + sl);
        lemma_be_value_append(sh, sl);
        reveal_with_fuel(pow256, 5);
    }
    hi as u64 * 0x1_0000_0000 + lo as u64
}

/// Reads the four big-endian bytes at `i`.
fn read_be4(b: &Vec<u8>, i: usize) -> (r: u32)
    requires
        i + 4 <= b@.len(),
    ensures
        r == be4_at(b@, i as int),
{
    let n: usize = b.len();
    assert(i + 4 <= n);
    let s = Ghost(b@.subrange(i as int, i + 4));
    proof {
        reveal_with_fuel(be_value, 5);
        assert(s@.drop_last().drop_last().drop_last().drop_last() =~= Seq::<u8>::empty());
    }
    (b[i] as u32) * 0x100_0000 + (b[i + 1] as u32) * 0x1_0000 + (b[i + 2] as u32) * 256 + (b[i
        + 3] as u32)
}

/// Copies `b[start..end]`.
fn copy_range(b: &Vec<u8>, start: usize, end: usize) -> (r: Vec<u8>)
    requires
        start <= end <= b@.len(),
    ensures
        r@ == b@.subrange(start as int, end as int),
{
    let mut r: Vec<u8> = Vec::new();
    let mut i: usize = start;
    while i < end
        invariant
            start <= i <= end <= b@.len(),
            r@ == b@.subrange(start as int, i as int),
        decreases end - i,
    {
        r.push(b[i]);
        i = i + 1;
        assert(r@ =~= b@.subrange(start as int, i as int));
    }
    r
}

impl ProofQrCode {
    /// The byte form of this proof.
    pub fn to_bytes(&self) -> (r: Vec<u8>)
        ensures
            r@ == encode_code(self@),
    {
        let mut out: Vec<u8> = Vec::new();
        push_be4(&mut out, (self.public.today as i64 + 0x8000_0000) as u32);
        push_be4(&mut out, (self.public.delta as i64 + 0x8000_0000) as u32);
        out.push(
            match self.public.relation {
                Relation::Older => 0u8,
                Relation::Younger => 1u8,
            },
        );
        push_be8(&mut out, self.public.contract.len() as u64);
        let mut i: usize = 0;
        let ghost head = out@;
        while i < self.public.contract.len()
            invariant
                0 <= i <= self.public.contract@.len(),
                out@ == head + self.public.contract@.subrange(0, i as int),
            decreases self.public.contract@.len() - i,
        {
            out.push(self.public.contract[i]);
            i = i + 1;
            assert(out@ =~= head + self.public.contract@.subrange(0, i as int));
        }
        let mut j: usize = 0;
        let ghost mid = out@;
        while j < self.proof.len()
            invariant
                0 <= j <= self.proof@.len(),
                out@ == mid + self.proof@.subrange(0, j as int),
            decreases self.proof@.len() - j,
        {
            out.push(self.proof[j]);
            j = j + 1;
            assert(out@ =~= mid + self.proof@.subrange(0, j as int));
        }
        assert(self.public.contract@.subrange(0, i as int) =~= self.public.contract@);
        assert(self.proof@.subrange(0, j as int) =~= self.proof@);
        assert(out@ =~= encode_code(self@));
        out
    }

    /// Reads a proof from its byte form.
    pub fn from_bytes(b: &Vec<u8>) -> (r: Result<ProofQrCode, ParseError>)
        ensures
            r.is_ok() == decode_code(b@).is_some(),
            r.is_ok() ==> r.unwrap()@ == decode_code(b@).unwrap(),
    {
        if b.len() < 17 || b[8] > 1 {
            return Err(ParseError);
        }
        let clen = read_be8(b, 9);
        if clen > (b.len() - 17) as u64 {
            return Err(ParseError);
        }
        let end: usize = 17 + clen as usize;
        let today = (read_be4(b, 0) as i64 - 0x8000_0000) as i32;
        let delta = (read_be4(b, 4) as i64 - 0x8000_0000) as i32;
        let relation = if b[8] == 0 {
            Relation::Older
        } else {
            Relation::Younger
        };
        let contract = copy_range(b, 17, end);
        let proof = copy_range(b, end, b.len());
        let r = ProofQrCode { public: PublicQr { today, contract, delta, relation }, proof };
        assert(r@ == decode_code(b@).unwrap());
        Ok(r)
    }

    /// The transport string of this proof: its byte form in lower-case hex.
    /// Read back, it gives this proof again.
    pub fn to_string(&self) -> (r: String)
        ensures
            r@ == hex_of(encode_code(self@)),
            is_hex(r@),
            decode_code(bytes_of_hex(r@)) == Some(self@),
    {
        let n: usize = self.public.contract.len();
        proof {
            assert(n as int <= u64::MAX);
            lemma_transport_round_trip(self@);
        }
        hex_encode(&self.to_bytes())
    }

    /// Reads a proof from its transport string.
    pub fn from_str(s: &str) -> (r: Result<ProofQrCode, ParseError>)
        ensures
            r.is_ok() == (is_hex(s@) && decode_code(bytes_of_hex(s@)).is_some()),
            r.is_ok() ==> r.unwrap()@ == decode_code(bytes_of_hex(s@)).unwrap(),
    {
        match hex_decode(s) {
            Some(b) => ProofQrCode::from_bytes(&b),
            None => Err(ParseError),
        }
    }
}

} // verus!
