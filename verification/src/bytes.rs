//! Little-endian byte strings and their values.
use vstd::prelude::*;

verus! {

/// The number that a little-endian byte string stands for.
pub open spec fn le_value(s: Seq<u8>) -> nat
    decreases s.len(),
{
    if s.len() == 0 {
        0
    } else {
        s[0] as nat + 256 * le_value(s.skip(1))
    }
}

/// The `len` low bytes of `n`, least significant byte first.
pub open spec fn le_bytes(n: nat, len: nat) -> Seq<u8>
    decreases len,
{
    if len == 0 {
        Seq::empty()
    } else {
        seq![(n % 256) as u8] + le_bytes(n / 256, (len - 1) as nat)
    }
}

/// `256` to the power `len`: the number of byte strings of that length.
pub open spec fn byte_range(len: nat) -> nat
    decreases len,
{
    if len == 0 {
        1
    } else {
        256 * byte_range((len - 1) as nat)
    }
}

pub proof fn lemma_le_bytes_len(n: nat, len: nat)
    ensures
        le_bytes(n, len).len() == len,
    decreases len,
{
    if len > 0 {
        lemma_le_bytes_len(n / 256, (len - 1) as nat);
    }
}

/// Every byte string of length `len` stands for a number below `256^len`.
pub proof fn lemma_le_value_bound(s: Seq<u8>)
    ensures
        le_value(s) < byte_range(s.len()),
    decreases s.len(),
{
    if s.len() > 0 {
        lemma_le_value_bound(s.skip(1));
    }
}

/// Writing a number down and reading it back gives the number.
pub proof fn lemma_le_value_of_bytes(n: nat, len: nat)
    requires
        n < byte_range(len),
    ensures
        le_value(le_bytes(n, len)) == n,
        le_bytes(n, len).len() == len,
    decreases len,
{
    lemma_le_bytes_len(n, len);
    if len > 0 {
        let tail = le_bytes(n / 256, (len - 1) as nat);
        lemma_le_value_of_bytes(n / 256, (len - 1) as nat);
        assert(le_bytes(n, len).skip(1) =~= tail);
    }
}

/// Reading a byte string and writing its value down gives the byte string.
pub proof fn lemma_le_bytes_of_value(s: Seq<u8>)
    ensures
        le_bytes(le_value(s), s.len()) == s,
    decreases s.len(),
{
    if s.len() > 0 {
        let tail = s.skip(1);
        lemma_le_bytes_of_value(tail);
        let n = le_value(s);
        assert(n == s[0] as nat + 256 * le_value(tail));
        assert(n % 256 == s[0] as nat);
        assert(n / 256 == le_value(tail));
        assert(seq![s[0]] + tail =~= s);
    } else {
        assert(le_bytes(le_value(s), s.len()) =~= s);
    }
}

/// Eight bytes hold 64 bits.
pub proof fn lemma_byte_range_8()
    ensures
        byte_range(8) == 0x1_0000_0000_0000_0000,
{
    reveal_with_fuel(byte_range, 9);
}

/// Thirty-two bytes hold 256 bits.
pub proof fn lemma_byte_range_32()
    ensures
        byte_range(32)
            == 0x1_0000000000000000_0000000000000000_0000000000000000_0000000000000000nat,
{
    reveal_with_fuel(byte_range, 33);
}

/// The eight little-endian bytes of `x`.
pub fn u64_to_le_bytes(x: u64) -> (bytes: Vec<u8>)
    ensures
        bytes@ == le_bytes(x as nat, 8),
        bytes@.len() == 8,
{
    let mut bytes: Vec<u8> = Vec::new();
    let mut rest: u64 = x;
    let mut i: usize = 0;
    while i < 8
        invariant
            i <= 8,
            bytes@.len() == i,
            bytes@ + le_bytes(rest as nat, (8 - i) as nat) == le_bytes(x as nat, 8),
        decreases 8 - i,
    {
        let b: u8 = (rest % 256) as u8;
        let ghost before = bytes@;
        let ghost tail = le_bytes((rest / 256) as nat, (7 - i) as nat);
        bytes.push(b);
        proof {
            assert(le_bytes(rest as nat, (8 - i) as nat) == seq![b] + tail);
            assert(before + (seq![b] + tail) =~= before.push(b) + tail);
        }
        rest = rest / 256;
        i = i + 1;
    }
    proof {
        assert(bytes@ + Seq::<u8>::empty() =~= bytes@);
    }
    bytes
}

/// The number that eight little-endian bytes stand for.
pub fn u64_from_le_bytes(bytes: &[u8]) -> (x: u64)
    requires
        bytes@.len() == 8,
    ensures
        x as nat == le_value(bytes@),
{
    let mut x: u64 = 0;
    let mut i: usize = 8;
    proof {
        assert(bytes@.skip(8) =~= Seq::<u8>::empty());
        assert(byte_range(0) == 1);
    }
    while i > 0
        invariant
            i <= 8,
            bytes@.len() == 8,
            x as nat == le_value(bytes@.skip(i as int)),
        decreases i,
    {
        proof {
            let s = bytes@.skip(i - 1);
            assert(s.skip(1) =~= bytes@.skip(i as int));
            lemma_le_value_bound(s);
            lemma_byte_range_8();
            lemma_byte_range_mono((9 - i) as nat, 8);
        }
        i = i - 1;
        x = bytes[i] as u64 + 256 * x;
    }
    proof {
        assert(bytes@.skip(0) =~= bytes@);
    }
    x
}

pub proof fn lemma_byte_range_mono(a: nat, b: nat)
    requires
        a <= b,
    ensures
        0 < byte_range(a) <= byte_range(b),
    decreases b,
{
    if a < b {
        lemma_byte_range_mono(a, (b - 1) as nat);
    } else if a > 0 {
        lemma_byte_range_mono((a - 1) as nat, (a - 1) as nat);
    }
}

/// The bytes of `v` in `from..to`.
pub fn slice_to_vec(v: &[u8], from: usize, to: usize) -> (out: Vec<u8>)
    requires
        from <= to <= v@.len(),
    ensures
        out@ == v@.subrange(from as int, to as int),
{
    let mut out: Vec<u8> = Vec::new();
    let mut i: usize = from;
    while i < to
        invariant
            from <= i <= to <= v@.len(),
            out@ == v@.subrange(from as int, i as int),
        decreases to - i,
    {
        out.push(v[i]);
        proof {
            assert(v@.subrange(from as int, i as int).push(v@[i as int]) =~= v@.subrange(
                from as int,
                i + 1,
            ));
        }
        i = i + 1;
    }
    out
}

/// The first 32 bytes of `v`.
pub fn first_32(v: &[u8]) -> (out: [u8; 32])
    requires
        v@.len() >= 32,
    ensures
        out@ == v@.take(32),
{
    let mut out: [u8; 32] = [0u8; 32];
    let mut i: usize = 0;
    while i < 32
        invariant
            i <= 32,
            v@.len() >= 32,
            forall|j: int| 0 <= j < i ==> out@[j] == v@[j],
        decreases 32 - i,
    {
        out[i] = v[i];
        i = i + 1;
    }
    proof {
        assert(out@ =~= v@.take(32));
    }
    out
}

/// Whether two byte strings are equal.
pub fn bytes_equal(a: &[u8], b: &[u8]) -> (equal: bool)
    ensures
        equal == (a@ == b@),
{
    if a.len() != b.len() {
        return false;
    }
    let mut i: usize = 0;
    while i < a.len()
        invariant
            i <= a@.len(),
            a@.len() == b@.len(),
            forall|j: int| 0 <= j < i ==> a@[j] == b@[j],
        decreases a@.len() - i,
    {
        if a[i] != b[i] {
            return false;
        }
        i = i + 1;
    }
    proof {
        assert(a@ =~= b@);
    }
    true
}

/// The number in a byte string has the first byte as its lowest digit; the bytes of a number are its
/// digits, cut off at the length.
pub proof fn law_little_endian(first: u8, rest: Seq<u8>, n: nat, len: nat)
    ensures
        le_value(Seq::empty()) == 0,
        le_value(seq![first] + rest) == first + 256 * le_value(rest),
        le_bytes(n, 0) == Seq::<u8>::empty(),
        le_bytes(n, len + 1) == seq![(n % 256) as u8] + le_bytes(n / 256, len),
        byte_range(0) == 1,
        byte_range(len + 1) == 256 * byte_range(len),
{
    assert((seq![first] + rest).drop_first() =~= rest);
}

} // verus!
