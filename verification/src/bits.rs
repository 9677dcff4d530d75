//! Bit strings.
//!
//! Everything that crosses the wire is a string of bits in which the least
//! significant bit of a value comes first. The functions here say what such a
//! string is, without reference to buffers or positions in them.
use vstd::arithmetic::div_mod::{
    lemma_fundamental_div_mod, lemma_fundamental_div_mod_converse, lemma_mod_breakdown,
};
use vstd::arithmetic::power2::{
    lemma2_to64, lemma_pow2_adds, lemma_pow2_pos, lemma_pow2_unfold, pow2,
};
use vstd::prelude::*;

verus! {

/// Bit `i` of `v`.
pub open spec fn bit(v: nat, i: nat) -> bool {
    (v / pow2(i)) % 2 == 1
}

/// The `n` low bits of `v`.
pub open spec fn low_bits(v: nat, n: nat) -> Seq<bool> {
    Seq::new(n, |i: int| bit(v, i as nat))
}

/// The number that a bit string stands for.
pub open spec fn bits_value(s: Seq<bool>) -> nat
    decreases s.len(),
{
    if s.len() == 0 {
        0
    } else {
        bits_value(s.drop_last()) + (if s.last() {
            pow2((s.len() - 1) as nat)
        } else {
            0
        })
    }
}

/// The number of bytes that `n` bits take.
pub open spec fn byte_count(n: nat) -> nat {
    (n + 7) / 8
}

/// `s` filled up with zero bits to a whole number of bytes.
pub open spec fn align(s: Seq<bool>) -> Seq<bool> {
    Seq::new(8 * byte_count(s.len()), |i: int| i < s.len() && s[i])
}

/// The bits of a byte string.
pub open spec fn bytes_bits(bytes: Seq<u8>) -> Seq<bool> {
    Seq::new(8 * bytes.len(), |i: int| bit(bytes[i / 8] as nat, (i % 8) as nat))
}

/// `bytes` cut, or filled up with zero bytes, to length `n`.
pub open spec fn pad_bytes(bytes: Seq<u8>, n: nat) -> Seq<u8> {
    Seq::new(
        n,
        |i: int|
            if i < bytes.len() {
                bytes[i]
            } else {
                0
            },
    )
}

/// `s` followed by the `n` low bits of `v`.
pub open spec fn put_bits(s: Seq<bool>, n: nat, v: nat) -> Seq<bool> {
    s + low_bits(v, n)
}

/// `s`, aligned, followed by one byte.
pub open spec fn put_byte(s: Seq<bool>, v: u8) -> Seq<bool> {
    put_bits(align(s), 8, v as nat)
}

/// `s`, aligned, followed by a 32-bit value.
pub open spec fn put_u32(s: Seq<bool>, v: u32) -> Seq<bool> {
    put_bits(align(s), 32, v as nat)
}

/// `s`, aligned, followed by some bytes.
pub open spec fn put_bytes(s: Seq<bool>, bytes: Seq<u8>) -> Seq<bool> {
    align(s) + bytes_bits(bytes)
}

/// Byte `k` of the byte string that holds the bits `s`.
pub open spec fn packed_byte(s: Seq<bool>, k: int) -> u8 {
    bits_value(align(s).subrange(8 * k, 8 * k + 8)) as u8
}

/// The byte string that holds the bits `s`; the unused bits of its last byte are zero.
pub open spec fn pack(s: Seq<bool>) -> Seq<u8> {
    Seq::new(byte_count(s.len()), |k: int| packed_byte(s, k))
}

/// The bit of `bytes` at bit position `i`. Past the end of `bytes` there are zeros.
pub open spec fn stream_bit(bytes: Seq<u8>, i: int) -> bool {
    i / 8 < bytes.len() && bit(bytes[i / 8] as nat, (i % 8) as nat)
}

/// The `n` bits of `bytes` from bit position `p` on.
pub open spec fn stream_bits(bytes: Seq<u8>, p: nat, n: nat) -> Seq<bool> {
    Seq::new(n, |i: int| stream_bit(bytes, p + i))
}

/// The number that stands in the `n` bits of `bytes` from bit position `p` on.
#[verifier::opaque]
pub open spec fn stream_value(bytes: Seq<u8>, p: nat, n: nat) -> nat {
    bits_value(stream_bits(bytes, p, n))
}

/// The first byte boundary at or after bit position `p`.
pub open spec fn align_pos(p: nat) -> nat {
    8 * byte_count(p)
}

/// The byte at index `i` of `bytes`, or zero past the end.
pub open spec fn stream_byte(bytes: Seq<u8>, i: int) -> u8 {
    if i < bytes.len() {
        bytes[i]
    } else {
        0
    }
}

/// A string of `n` bits stands for a number below `2^n`.
pub proof fn lemma_bits_value_bound(s: Seq<bool>)
    ensures
        bits_value(s) < pow2(s.len()),
    decreases s.len(),
{
    lemma2_to64();
    if s.len() > 0 {
        lemma_bits_value_bound(s.drop_last());
        lemma_pow2_unfold(s.len());
    }
}

proof fn lemma_bit_step(v: nat, n: nat)
    ensures
        v % pow2(n + 1) == v % pow2(n) + (if bit(v, n) {
            pow2(n)
        } else {
            0
        }),
{
    lemma_pow2_pos(n);
    lemma_pow2_unfold(n + 1);
    lemma_mod_breakdown(v as int, pow2(n) as int, 2);
    assert(pow2(n) * 2 == pow2(n + 1));
    let q = (v / pow2(n)) % 2;
    assert(pow2(n) * q == (if bit(v, n) {
        pow2(n)
    } else {
        0
    })) by (nonlinear_arith)
        requires
            q == 0 || q == 1,
            bit(v, n) <==> q == 1,
    ;
}

/// The `n` low bits of `v` stand for `v` modulo `2^n`.
pub proof fn lemma_low_bits_value(v: nat, n: nat)
    ensures
        bits_value(low_bits(v, n)) == v % pow2(n),
    decreases n,
{
    lemma2_to64();
    if n > 0 {
        let m = (n - 1) as nat;
        lemma_low_bits_value(v, m);
        assert(low_bits(v, n).drop_last() =~= low_bits(v, m));
        lemma_bit_step(v, m);
    }
}

/// The bits of the number that `s` stands for are those of `s`.
pub proof fn lemma_bits_value_bits(s: Seq<bool>)
    ensures
        low_bits(bits_value(s), s.len()) =~= s,
    decreases s.len(),
{
    if s.len() > 0 {
        let m = (s.len() - 1) as nat;
        let t = s.drop_last();
        lemma_bits_value_bits(t);
        lemma_bits_value_bound(t);
        let low = bits_value(t);
        let v = bits_value(s);
        lemma_pow2_pos(m);
        // the top bit
        assert(v / pow2(m) == (if s.last() {
            1nat
        } else {
            0
        })) by {
            if s.last() {
                lemma_fundamental_div_mod_converse(v as int, pow2(m) as int, 1, low as int);
            } else {
                lemma_fundamental_div_mod_converse(v as int, pow2(m) as int, 0, low as int);
            }
        }
        assert forall|i: int| 0 <= i < s.len() implies low_bits(v, s.len())[i] == s[i] by {
            if i < m {
                let k = i as nat;
                assert(low_bits(low, t.len())[i] == t[i]);
                if s.last() {
                    // v = low + 2^m, and 2^m is an even multiple of 2^k
                    let r = (m - k - 1) as nat;
                    lemma_pow2_adds(k, r);
                    lemma_pow2_pos(k);
                    lemma_pow2_unfold(m);
                    assert(v == low + (2 * pow2(r)) * pow2(k)) by (nonlinear_arith)
                        requires
                            v == low + pow2(m),
                            pow2(m) == 2 * pow2((m - 1) as nat),
                            pow2((m - 1) as nat) == pow2(k) * pow2(r),
                    ;
                    lemma_fundamental_div_mod(low as int, pow2(k) as int);
                    let q = low / pow2(k);
                    assert(v == (q + 2 * pow2(r)) * pow2(k) + low % pow2(k)) by (nonlinear_arith)
                        requires
                            v == low + (2 * pow2(r)) * pow2(k),
                            low == pow2(k) * q + low % pow2(k),
                    ;
                    lemma_fundamental_div_mod_converse(
                        v as int,
                        pow2(k) as int,
                        (q + 2 * pow2(r)) as int,
                        (low % pow2(k)) as int,
                    );
                    assert((q + 2 * pow2(r)) % 2 == q % 2);
                }
            }
        }
    }
}

/// A byte is the value of its eight bits.
pub proof fn lemma_byte_bits(b: u8)
    ensures
        bits_value(low_bits(b as nat, 8)) == b,
{
    lemma_low_bits_value(b as nat, 8);
    lemma2_to64();
}

/// Reading the bits of a packed bit string gives the bit string back, filled up
/// to a whole number of bytes.
pub proof fn lemma_pack_bits(s: Seq<bool>)
    ensures
        bytes_bits(pack(s)) =~= align(s),
{
    let a = align(s);
    assert forall|i: int| 0 <= i < a.len() implies bytes_bits(pack(s))[i] == a[i] by {
        let k = i / 8;
        let chunk = a.subrange(8 * k, 8 * k + 8);
        lemma_bits_value_bits(chunk);
        lemma_bits_value_bound(chunk);
        lemma2_to64();
        assert(low_bits(bits_value(chunk), 8)[i % 8] == chunk[i % 8]);
    }
}

/// A byte string whose bits are those of `s`, up to zeros at the end, is `pack(s)`.
pub proof fn lemma_pack_unique(s: Seq<bool>, bytes: Seq<u8>)
    requires
        bytes_bits(bytes) =~= align(s),
    ensures
        bytes =~= pack(s),
{
    assert(bytes_bits(bytes).len() == align(s).len());
    assert forall|k: int| 0 <= k < bytes.len() implies bytes[k] == pack(s)[k] by {
        let chunk = align(s).subrange(8 * k, 8 * k + 8);
        assert(low_bits(bytes[k] as nat, 8) =~= chunk) by {
            assert forall|j: int| 0 <= j < 8 implies low_bits(bytes[k] as nat, 8)[j] == chunk[j] by {
                assert(bytes_bits(bytes)[8 * k + j] == align(s)[8 * k + j]);
            }
        }
        lemma_byte_bits(bytes[k]);
    }
}

} // verus!
