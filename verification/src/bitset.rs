//! Categorical split bitsets.
//!
//! The joint trainer keeps a categorical split as a `u64` (bit `k` set means
//! category `k` goes left); artifacts and the single-output predictor store the
//! same set as little-endian bytes with trailing zero bytes trimmed (at least
//! one byte is kept).

use vstd::prelude::*;

verus! {

/// Byte `k` (little-endian) of `bs`.
pub open spec fn spec_byte(bs: u64, k: int) -> u8 {
    ((bs >> (8 * k) as u64) & 0xFF) as u8
}

/// Length of the trimmed encoding: one past the highest nonzero byte, at least 1.
pub open spec fn spec_trimmed_len(bs: u64) -> nat
    decreases 8nat,
{
    if bs >> 8u64 == 0 {
        1
    } else if bs >> 16u64 == 0 {
        2
    } else if bs >> 24u64 == 0 {
        3
    } else if bs >> 32u64 == 0 {
        4
    } else if bs >> 40u64 == 0 {
        5
    } else if bs >> 48u64 == 0 {
        6
    } else if bs >> 56u64 == 0 {
        7
    } else {
        8
    }
}

/// The trimmed little-endian byte encoding of `bs`.
pub open spec fn spec_bitset_bytes(bs: u64) -> Seq<u8> {
    Seq::new(spec_trimmed_len(bs), |k: int| spec_byte(bs, k))
}

/// Decodes the first `n` bytes of `bytes` (little-endian).
pub open spec fn spec_decode_prefix(bytes: Seq<u8>, n: nat) -> u64
    decreases n,
{
    if n == 0 {
        0
    } else {
        spec_decode_prefix(bytes, (n - 1) as nat) | ((bytes[n - 1] as u64) << (8 * (n - 1)) as u64)
    }
}

/// Decodes up to the first eight bytes of a byte bitset.
pub open spec fn spec_bitset_bytes_to_u64(bytes: Seq<u8>) -> u64 {
    spec_decode_prefix(
        bytes,
        if bytes.len() < 8 {
            bytes.len()
        } else {
            8
        },
    )
}

/// Converts a `u64` categorical bitset into the trimmed byte encoding.
pub fn u64_to_bitset_bytes(bs: u64) -> (r: Vec<u8>)
    ensures
        r@ == spec_bitset_bytes(bs),
        1 <= r@.len() <= 8,
{
    let mut out: Vec<u8> = Vec::new();
    let mut byte_idx: u64 = 0;
    while byte_idx < 8
        invariant
            byte_idx <= 8,
            out@.len() == byte_idx,
            forall|k: int| 0 <= k < byte_idx ==> out@[k] == spec_byte(bs, k),
        decreases 8 - byte_idx,
    {
        let byte = ((bs >> (byte_idx * 8)) & 0xFF) as u8;
        out.push(byte);
        byte_idx = byte_idx + 1;
    }
    proof {
        lemma_trimmed_len(bs);
    }
    while out.len() > 1 && out[out.len() - 1] == 0
        invariant
            1 <= out@.len() <= 8,
            spec_trimmed_len(bs) <= out@.len(),
            forall|k: int| 0 <= k < out@.len() ==> out@[k] == spec_byte(bs, k),
        decreases out.len(),
    {
        proof {
            lemma_trimmed_len(bs);
            assert(out@[out@.len() - 1] == spec_byte(bs, out@.len() - 1));
        }
        out.pop();
    }
    proof {
        lemma_trimmed_len(bs);
        if out@.len() > 1 {
            assert(out@[out@.len() - 1] == spec_byte(bs, out@.len() - 1));
            assert(spec_byte(bs, out@.len() - 1) != 0);
        }
        assert(out@.len() == spec_trimmed_len(bs));
    }
    assert(out@ =~= spec_bitset_bytes(bs));
    out
}

/// Bytes at and above the trimmed length are zero; the last kept byte is
/// nonzero unless only one byte is kept.
pub proof fn lemma_trimmed_len(bs: u64)
    ensures
        1 <= spec_trimmed_len(bs) <= 8,
        forall|k: int| spec_trimmed_len(bs) <= k < 8 ==> spec_byte(bs, k) == 0,
        spec_trimmed_len(bs) > 1 ==> spec_byte(bs, spec_trimmed_len(bs) - 1) != 0,
{
    let b0 = spec_byte(bs, 0);
    assert(spec_byte(bs, 0) == ((bs >> 0u64) & 0xFF) as u8);
    assert(spec_byte(bs, 1) == ((bs >> 8u64) & 0xFF) as u8);
    assert(spec_byte(bs, 2) == ((bs >> 16u64) & 0xFF) as u8);
    assert(spec_byte(bs, 3) == ((bs >> 24u64) & 0xFF) as u8);
    assert(spec_byte(bs, 4) == ((bs >> 32u64) & 0xFF) as u8);
    assert(spec_byte(bs, 5) == ((bs >> 40u64) & 0xFF) as u8);
    assert(spec_byte(bs, 6) == ((bs >> 48u64) & 0xFF) as u8);
    assert(spec_byte(bs, 7) == ((bs >> 56u64) & 0xFF) as u8);
    assert(bs >> 8u64 == 0 ==> (bs >> 8u64) & 0xFF == 0 && (bs >> 16u64) & 0xFF == 0 && (bs
        >> 24u64) & 0xFF == 0 && (bs >> 32u64) & 0xFF == 0 && (bs >> 40u64) & 0xFF == 0 && (bs
        >> 48u64) & 0xFF == 0 && (bs >> 56u64) & 0xFF == 0) by (bit_vector);
    assert(bs >> 16u64 == 0 ==> (bs >> 16u64) & 0xFF == 0 && (bs >> 24u64) & 0xFF == 0 && (bs
        >> 32u64) & 0xFF == 0 && (bs >> 40u64) & 0xFF == 0 && (bs >> 48u64) & 0xFF == 0 && (bs
        >> 56u64) & 0xFF == 0) by (bit_vector);
    assert(bs >> 24u64 == 0 ==> (bs >> 24u64) & 0xFF == 0 && (bs >> 32u64) & 0xFF == 0 && (bs
        >> 40u64) & 0xFF == 0 && (bs >> 48u64) & 0xFF == 0 && (bs >> 56u64) & 0xFF == 0)
        by (bit_vector);
    assert(bs >> 32u64 == 0 ==> (bs >> 32u64) & 0xFF == 0 && (bs >> 40u64) & 0xFF == 0 && (bs
        >> 48u64) & 0xFF == 0 && (bs >> 56u64) & 0xFF == 0) by (bit_vector);
    assert(bs >> 40u64 == 0 ==> (bs >> 40u64) & 0xFF == 0 && (bs >> 48u64) & 0xFF == 0 && (bs
        >> 56u64) & 0xFF == 0) by (bit_vector);
    assert(bs >> 48u64 == 0 ==> (bs >> 48u64) & 0xFF == 0 && (bs >> 56u64) & 0xFF == 0)
        by (bit_vector);
    assert(bs >> 56u64 == 0 ==> (bs >> 56u64) & 0xFF == 0) by (bit_vector);
    assert(bs >> 8u64 != 0 && bs >> 16u64 == 0 ==> ((bs >> 8u64) & 0xFF) as u8 != 0) by (bit_vector);
    assert(bs >> 16u64 != 0 && bs >> 24u64 == 0 ==> ((bs >> 16u64) & 0xFF) as u8 != 0) by (bit_vector);
    assert(bs >> 24u64 != 0 && bs >> 32u64 == 0 ==> ((bs >> 24u64) & 0xFF) as u8 != 0) by (bit_vector);
    assert(bs >> 32u64 != 0 && bs >> 40u64 == 0 ==> ((bs >> 32u64) & 0xFF) as u8 != 0) by (bit_vector);
    assert(bs >> 40u64 != 0 && bs >> 48u64 == 0 ==> ((bs >> 40u64) & 0xFF) as u8 != 0) by (bit_vector);
    assert(bs >> 48u64 != 0 && bs >> 56u64 == 0 ==> ((bs >> 48u64) & 0xFF) as u8 != 0) by (bit_vector);
    assert(bs >> 56u64 != 0 ==> ((bs >> 56u64) & 0xFF) as u8 != 0) by (bit_vector);
}

/// Decodes a byte bitset (at most its first eight bytes) into a `u64`.
pub fn bitset_bytes_to_u64(bytes: &[u8]) -> (r: u64)
    ensures
        r == spec_bitset_bytes_to_u64(bytes@),
{
    let n: usize = if bytes.len() < 8 { bytes.len() } else { 8 };
    let mut out: u64 = 0;
    let mut byte_idx: usize = 0;
    while byte_idx < n
        invariant
            n <= 8,
            n <= bytes@.len(),
            byte_idx <= n,
            out == spec_decode_prefix(bytes@, byte_idx as nat),
        decreases n - byte_idx,
    {
        out = out | ((bytes[byte_idx] as u64) << ((byte_idx * 8) as u64));
        byte_idx = byte_idx + 1;
    }
    out
}

/// The low `8 * n` bits of `bs`.
pub open spec fn spec_low_bytes(bs: u64, n: nat) -> u64 {
    if n >= 8 {
        bs
    } else {
        bs & ((1u64 << (8 * n) as u64) - 1) as u64
    }
}

/// Decoding the first `n` bytes of the full encoding keeps the low `8n` bits.
pub proof fn lemma_decode_prefix_low_bytes(bs: u64, b: Seq<u8>, n: nat)
    requires
        n <= 8,
        n <= b.len(),
        forall|k: int| 0 <= k < n ==> b[k] == spec_byte(bs, k),
    ensures
        spec_decode_prefix(b, n) == spec_low_bytes(bs, n),
    decreases n,
{
    if n == 0 {
        assert(bs & ((1u64 << 0u64) - 1) as u64 == 0) by (bit_vector);
    } else {
        lemma_decode_prefix_low_bytes(bs, b, (n - 1) as nat);
        let s = (8 * (n - 1)) as u64;
        assert(b[n - 1] == ((bs >> s) & 0xFF) as u8);
        if n < 8 {
            assert(s + 8 < 64 ==> (bs & ((1u64 << s) - 1) as u64) | ((((bs >> s) & 0xFF) as u8)
                as u64) << s == bs & ((1u64 << (s + 8)) - 1) as u64) by (bit_vector);
        } else {
            assert(s == 56);
            assert((bs & ((1u64 << 56u64) - 1) as u64) | ((((bs >> 56u64) & 0xFF) as u8) as u64)
                << 56u64 == bs) by (bit_vector);
        }
    }
}

/// Decoding the trimmed encoding gives back the bitset.
pub proof fn lemma_bitset_bytes_round_trip(bs: u64)
    ensures
        spec_bitset_bytes_to_u64(spec_bitset_bytes(bs)) == bs,
{
    lemma_trimmed_len(bs);
    let b = spec_bitset_bytes(bs);
    let n = spec_trimmed_len(bs);
    lemma_decode_prefix_low_bytes(bs, b, n);
    if n < 8 {
        let s = (8 * n) as u64;
        assert(bs >> s == 0) by {
            if n == 1 {
            } else if n == 2 {
            } else if n == 3 {
            } else if n == 4 {
            } else if n == 5 {
            } else if n == 6 {
            } else {
            }
        }
        assert(s < 64 && bs >> s == 0 ==> bs & ((1u64 << s) - 1) as u64 == bs) by (bit_vector);
    }
}

/// Category `bin` goes left under the `u64` bitset.
pub open spec fn spec_u64_bitset_contains(bs: u64, bin: u16) -> bool {
    bin < 64 && (bs & (1u64 << bin as u64)) != 0
}

/// Category `bin` goes left under the byte bitset.
pub open spec fn spec_byte_bitset_contains(bitset: Seq<u8>, bin: u16) -> bool {
    (bin / 8) < bitset.len() && (bitset[(bin / 8) as int] & (1u8 << (bin % 8) as u8)) != 0
}

/// Membership of `bin` in a `u64` categorical bitset.
pub fn u64_bitset_contains(bs: u64, bin: u16) -> (r: bool)
    ensures
        r == spec_u64_bitset_contains(bs, bin),
{
    bin < 64 && (bs & (1u64 << (bin as u64))) != 0
}

/// Membership of `bin` in a byte categorical bitset.
pub fn byte_bitset_contains(bitset: &[u8], bin: u16) -> (r: bool)
    ensures
        r == spec_byte_bitset_contains(bitset@, bin),
{
    let byte_index = (bin / 8) as usize;
    let bit_index = (bin % 8) as u8;
    byte_index < bitset.len() && (bitset[byte_index] & (1u8 << bit_index)) != 0
}

/// The byte encoding routes every category exactly as the `u64` bitset does.
pub proof fn lemma_bitset_membership_agrees(bs: u64, bin: u16)
    ensures
        spec_byte_bitset_contains(spec_bitset_bytes(bs), bin) == spec_u64_bitset_contains(bs, bin),
{
    lemma_trimmed_len(bs);
    let k = (bin / 8) as int;
    let j = (bin % 8) as u8;
    if bin < 64 {
        assert(0 <= k < 8);
        let byte = spec_byte(bs, k);
        assert(bin as u64 == 8 * (k as u64) + j as u64);
        let sh = (8 * k) as u64;
        assert(sh < 64 && j < 8);
        assert(sh < 64 && j < 8 ==> ((((bs >> sh) & 0xFF) as u8) & (1u8 << j) != 0) == ((bs & (1u64
            << (sh + j as u64))) != 0)) by (bit_vector);
        if k >= spec_trimmed_len(bs) {
            assert(byte == 0);
            assert(((bs >> sh) & 0xFF) as u8 == 0 ==> ((((bs >> sh) & 0xFF) as u8) & (1u8 << j)
                == 0)) by (bit_vector);
        }
    } else {
        assert(k >= 8);
    }
}

} // verus!
