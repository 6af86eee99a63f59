//! The scalar field of the BN254 curve.
//!
//! An element is held as its canonical representative in four 64-bit limbs; its view is that
//! representative. Arithmetic is done by `ark-ff` on those limbs.
use ark_ff::{BigInteger, Field, PrimeField, UniformRand};
use ark_serialize::{CanonicalDeserialize, CanonicalSerialize};
use vstd::arithmetic::div_mod::{
    lemma_mul_mod_noop_left, lemma_mul_mod_noop_right, lemma_small_mod,
};
use vstd::prelude::*;

use crate::bytes::{byte_range, le_bytes, le_value};

verus! {

/// The order of the field.
pub open spec fn modulus() -> nat {
    21888242871839275222246405745257275088548364400416034343698204186575808495617nat
}

/// The number held by four limbs, least significant limb first.
pub open spec fn limbs_value(limbs: Seq<u64>) -> nat {
    (limbs[0] + 0x1_0000000000000000int * limbs[1]
        + 0x1_0000000000000000_0000000000000000int * limbs[2]
        + 0x1_0000000000000000_0000000000000000_0000000000000000int * limbs[3]) as nat
}

/// Sum in the field.
pub open spec fn add_mod(a: nat, b: nat) -> nat {
    (a + b) % modulus()
}

/// Product in the field.
pub open spec fn mul_mod(a: nat, b: nat) -> nat {
    (a * b) % modulus()
}

/// Whether `r` is a canonical multiplicative inverse of `a`.
pub open spec fn is_inverse(a: nat, r: nat) -> bool {
    r < modulus() && mul_mod(a, r) == 1
}

/// The multiplicative inverse of `a`, for `a` not divisible by the modulus.
pub open spec fn inverse_mod(a: nat) -> nat {
    choose|r: nat| is_inverse(a, r)
}

/// An element has at most one inverse.
pub proof fn lemma_inverse_unique(a: nat, r: nat)
    requires
        is_inverse(a, r),
    ensures
        inverse_mod(a) == r,
{
    let p = modulus() as int;
    let q = inverse_mod(a);
    assert(is_inverse(a, q));
    let (ai, ri, qi) = (a as int, r as int, q as int);
    // q = q * (a * r) = (q * a) * r = r, all modulo p.
    lemma_mul_mod_noop_right(qi, ai * ri, p);
    lemma_mul_mod_noop_left(ai * qi, ri, p);
    assert(qi * (ai * ri) == (ai * qi) * ri) by (nonlinear_arith);
    assert((qi * ((ai * ri) % p)) % p == (qi * (ai * ri)) % p);
    assert((((ai * qi) % p) * ri) % p == ((ai * qi) * ri) % p);
    lemma_small_mod(q, modulus());
    lemma_small_mod(r, modulus());
}

/// `ark_ff`'s addition of two field elements, on canonical limbs.
#[verifier::external_body]
fn ark_add(a: [u64; 4], b: [u64; 4]) -> (r: [u64; 4])
    requires
        limbs_value(a@) < modulus(),
        limbs_value(b@) < modulus(),
    ensures
        limbs_value(r@) == add_mod(limbs_value(a@), limbs_value(b@)),
{
    let x = ark_bn254::Fr::from_bigint(ark_ff::BigInt(a)).unwrap();
    let y = ark_bn254::Fr::from_bigint(ark_ff::BigInt(b)).unwrap();
    (x + y).into_bigint().0
}

/// `ark_ff`'s multiplication of two field elements, on canonical limbs.
#[verifier::external_body]
fn ark_mul(a: [u64; 4], b: [u64; 4]) -> (r: [u64; 4])
    requires
        limbs_value(a@) < modulus(),
        limbs_value(b@) < modulus(),
    ensures
        limbs_value(r@) == mul_mod(limbs_value(a@), limbs_value(b@)),
{
    let x = ark_bn254::Fr::from_bigint(ark_ff::BigInt(a)).unwrap();
    let y = ark_bn254::Fr::from_bigint(ark_ff::BigInt(b)).unwrap();
    (x * y).into_bigint().0
}

/// `ark_ff::Field::inverse`: zero has no inverse, and every other element has one.
#[verifier::external_body]
fn ark_inverse(a: [u64; 4]) -> (r: Option<[u64; 4]>)
    requires
        limbs_value(a@) < modulus(),
    ensures
        r is None <==> limbs_value(a@) == 0,
        r matches Some(inv) ==> is_inverse(limbs_value(a@), limbs_value(inv@)),
{
    let x = ark_bn254::Fr::from_bigint(ark_ff::BigInt(a)).unwrap();
    x.inverse().map(|inv| inv.into_bigint().0)
}

/// `ark_ff::PrimeField::from_le_bytes_mod_order`: the little-endian value of the bytes, reduced.
#[verifier::external_body]
fn ark_from_le_bytes_mod_order(bytes: &[u8]) -> (r: [u64; 4])
    ensures
        limbs_value(r@) == le_value(bytes@) % modulus(),
{
    ark_bn254::Fr::from_le_bytes_mod_order(bytes).into_bigint().0
}

/// `ark_ff::BigInteger::to_bytes_le` on the canonical representative: its 32 little-endian bytes.
#[verifier::external_body]
fn ark_to_bytes_le(a: [u64; 4]) -> (bytes: Vec<u8>)
    ensures
        bytes@ == le_bytes(limbs_value(a@), 32),
{
    ark_ff::BigInt::<4>(a).to_bytes_le()
}

/// `ark_serialize::CanonicalSerialize::serialize_compressed` of a field element: the 32
/// little-endian bytes of its canonical representative.
#[verifier::external_body]
fn ark_serialize_compressed(a: [u64; 4]) -> (bytes: Vec<u8>)
    requires
        limbs_value(a@) < modulus(),
    ensures
        bytes@ == le_bytes(limbs_value(a@), 32),
{
    let x = ark_bn254::Fr::from_bigint(ark_ff::BigInt(a)).unwrap();
    let mut bytes = Vec::new();
    x.serialize_compressed(&mut bytes).expect("a Vec takes any number of bytes");
    bytes
}

/// `ark_serialize::CanonicalDeserialize::deserialize_compressed` of a field element: the first 32
/// bytes are read as a little-endian number, and the element exists when there are that many bytes
/// and the number is below the modulus. Further bytes are not looked at.
#[verifier::external_body]
fn ark_deserialize_compressed(bytes: &[u8]) -> (r: Option<[u64; 4]>)
    ensures
        r is Some <==> decodes(bytes@),
        r matches Some(limbs) ==> limbs_value(limbs@) == le_value(bytes@.take(32)),
{
    ark_bn254::Fr::deserialize_compressed(bytes).ok().map(|x| x.into_bigint().0)
}

/// `ark_ff::UniformRand::rand` with `rand::thread_rng`: some canonical element.
#[verifier::external_body]
fn ark_rand() -> (r: [u64; 4])
    ensures
        limbs_value(r@) < modulus(),
{
    ark_bn254::Fr::rand(&mut rand::thread_rng()).into_bigint().0
}

/// A field element.
#[derive(Clone, Copy, Debug, PartialEq, Eq, Structural)]
pub struct Fr {
    l0: u64,
    l1: u64,
    l2: u64,
    l3: u64,
}

impl View for Fr {
    type V = nat;

    closed spec fn view(&self) -> nat {
        limbs_value(seq![self.l0, self.l1, self.l2, self.l3])
    }
}

impl vstd::std_specs::convert::FromSpecImpl<u64> for Fr {
    open spec fn obeys_from_spec() -> bool {
        true
    }

    closed spec fn from_spec(x: u64) -> Fr {
        Fr { l0: x, l1: 0, l2: 0, l3: 0 }
    }
}

impl From<u64> for Fr {
    /// The element that stands for `x`.
    fn from(x: u64) -> (r: Fr)
        ensures
            r@ == x,
    {
        Fr { l0: x, l1: 0, l2: 0, l3: 0 }
    }
}

impl Fr {
    /// Every element is held by its canonical representative.
    #[verifier::type_invariant]
    pub open spec fn canonical(self) -> bool {
        self@ < modulus()
    }

    fn from_limbs(limbs: [u64; 4]) -> (r: Fr)
        requires
            limbs_value(limbs@) < modulus(),
        ensures
            r@ == limbs_value(limbs@),
    {
        let ghost s = seq![limbs@[0], limbs@[1], limbs@[2], limbs@[3]];
        assert(s =~= limbs@);
        Fr { l0: limbs[0], l1: limbs[1], l2: limbs[2], l3: limbs[3] }
    }

    /// The limbs of the canonical representative.
    pub(crate) fn limbs(self) -> (limbs: [u64; 4])
        ensures
            limbs_value(limbs@) == self@,
            self@ < modulus(),
    {
        proof {
            use_type_invariant(&self);
        }
        let limbs = [self.l0, self.l1, self.l2, self.l3];
        assert(limbs@ =~= seq![self.l0, self.l1, self.l2, self.l3]);
        limbs
    }

    /// The lowest 64 bits of the representative.
    pub fn low_u64(self) -> (x: u64)
        ensures
            x == self@ % 0x1_0000_0000_0000_0000,
    {
        self.l0
    }

    /// The zero element.
    pub fn zero() -> (r: Fr)
        ensures
            r@ == 0,
    {
        Fr { l0: 0, l1: 0, l2: 0, l3: 0 }
    }

    /// The sum of two elements.
    pub fn plus(self, other: Fr) -> (r: Fr)
        ensures
            r@ == add_mod(self@, other@),
    {
        let limbs = ark_add(self.limbs(), other.limbs());
        Fr::from_limbs(limbs)
    }

    /// The product of two elements.
    pub fn times(self, other: Fr) -> (r: Fr)
        ensures
            r@ == mul_mod(self@, other@),
    {
        let limbs = ark_mul(self.limbs(), other.limbs());
        Fr::from_limbs(limbs)
    }

    /// The multiplicative inverse, which zero alone lacks.
    pub fn inverse(self) -> (r: Option<Fr>)
        ensures
            r is None <==> self@ == 0,
            r matches Some(inv) ==> inv@ == inverse_mod(self@) && is_inverse(self@, inv@),
    {
        match ark_inverse(self.limbs()) {
            Some(limbs) => {
                proof {
                    lemma_inverse_unique(self@, limbs_value(limbs@));
                }
                Some(Fr::from_limbs(limbs))
            },
            None => None,
        }
    }

    /// The little-endian value of `bytes`, reduced modulo the order of the field.
    pub fn from_le_bytes_mod_order(bytes: &[u8]) -> (r: Fr)
        ensures
            r@ == le_value(bytes@) % modulus(),
    {
        let limbs = ark_from_le_bytes_mod_order(bytes);
        Fr::from_limbs(limbs)
    }

    /// The 32 little-endian bytes of the canonical representative.
    pub fn to_bytes_le(self) -> (bytes: Vec<u8>)
        ensures
            bytes@ == le_bytes(self@, 32),
            bytes@.len() == 32,
    {
        proof {
            crate::bytes::lemma_le_bytes_len(self@, 32);
        }
        ark_to_bytes_le(self.limbs())
    }

    /// The compressed form of the element: the 32 little-endian bytes of its representative.
    pub fn serialize_compressed(self) -> (bytes: Vec<u8>)
        ensures
            bytes@ == le_bytes(self@, 32),
            bytes@.len() == 32,
    {
        proof {
            crate::bytes::lemma_le_bytes_len(self@, 32);
        }
        ark_serialize_compressed(self.limbs())
    }

    /// Reads an element from the first 32 bytes, which must hold a number below the modulus.
    pub fn deserialize_compressed(bytes: &[u8]) -> (r: Option<Fr>)
        ensures
            r is Some <==> decodes(bytes@),
            r matches Some(x) ==> x@ == le_value(bytes@.take(32)),
    {
        match ark_deserialize_compressed(bytes) {
            Some(limbs) => Some(Fr::from_limbs(limbs)),
            None => None,
        }
    }

    /// Some element, drawn at random.
    pub fn random() -> (r: Fr)
        ensures
            r.canonical(),
    {
        let limbs = ark_rand();
        Fr::from_limbs(limbs)
    }
}

/// Whether a byte string starts with the compressed form of an element.
pub open spec fn decodes(bytes: Seq<u8>) -> bool {
    bytes.len() >= 32 && le_value(bytes.take(32)) < modulus()
}

/// Two elements are equal exactly when they stand for the same number.
pub proof fn lemma_fr_equal(a: Fr, b: Fr)
    ensures
        a@ == b@ <==> a == b,
{
    if a@ == b@ {
        let x = seq![a.l0, a.l1, a.l2, a.l3];
        let y = seq![b.l0, b.l1, b.l2, b.l3];
        assert(x[0] == a.l0 && x[1] == a.l1 && x[2] == a.l2 && x[3] == a.l3);
        assert(y[0] == b.l0 && y[1] == b.l1 && y[2] == b.l2 && y[3] == b.l3);
    }
}

/// The compressed form of an element decodes to that element, whatever follows it.
pub proof fn law_compressed_round_trip(x: nat, rest: Seq<u8>)
    requires
        x < modulus(),
    ensures
        decodes(le_bytes(x, 32) + rest),
        le_value((le_bytes(x, 32) + rest).take(32)) == x,
        le_value(le_bytes(x, 32)) % modulus() == x,
{
    lemma_modulus_fits();
    crate::bytes::lemma_le_value_of_bytes(x, 32);
    assert((le_bytes(x, 32) + rest).take(32) =~= le_bytes(x, 32));
    lemma_small_mod(x, modulus());
}

/// Every representative fits in 32 bytes.
pub proof fn lemma_modulus_fits()
    ensures
        modulus() < byte_range(32),
{
    crate::bytes::lemma_byte_range_32();
}

/// The element that stands for a number.
pub open spec fn element(n: nat) -> Fr {
    choose|f: Fr| f@ == n
}

/// An element is the one that stands for its number.
pub proof fn lemma_element(f: Fr)
    ensures
        element(f@) == f,
{
    lemma_fr_equal(element(f@), f);
}

/// The values of a sequence of elements.
pub open spec fn values(s: Seq<Fr>) -> Seq<nat> {
    Seq::new(s.len(), |i: int| s[i]@)
}

/// The field is the one of the given prime order, with sum and product of numbers taken modulo it;
/// an inverse is what gives one as product.
pub proof fn law_field_arithmetic(a: nat, b: nat)
    ensures
        modulus()
            == 21888242871839275222246405745257275088548364400416034343698204186575808495617nat,
        add_mod(a, b) == (a + b) % modulus(),
        mul_mod(a, b) == (a * b) % modulus(),
        is_inverse(a, b) <==> b < modulus() && (a * b) % modulus() == 1,
        is_inverse(a, b) ==> inverse_mod(a) == b,
{
    if is_inverse(a, b) {
        lemma_inverse_unique(a, b);
    }
}

/// Limbs are digits of 64 bits, the least significant first.
pub proof fn law_limbs(limbs: Seq<u64>)
    ensures
        limbs_value(limbs) == limbs[0] + 0x1_0000000000000000 * (limbs[1] + 0x1_0000000000000000 * (
        limbs[2] + 0x1_0000000000000000 * limbs[3])),
{
}

/// A byte string decodes exactly where it has 32 bytes whose number is below the order of the field;
/// what follows them does not count.
pub proof fn law_what_decodes(bytes: Seq<u8>)
    ensures
        decodes(bytes) <==> bytes.len() >= 32 && le_value(bytes.subrange(0, 32)) < modulus(),
{
    if bytes.len() >= 32 {
        assert(bytes.take(32) =~= bytes.subrange(0, 32));
    }
}

/// The values of elements stand in their order.
pub proof fn law_values_in_order(s: Seq<Fr>, i: int)
    requires
        0 <= i < s.len(),
    ensures
        values(s).len() == s.len(),
        values(s)[i] == s[i]@,
{
}

} // verus!
