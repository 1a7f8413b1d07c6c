//! Little-endian field codecs used by the artifact payloads.

use vstd::prelude::*;

use crate::error::EngineError;

verus! {

pub open spec fn spec_u32_from_bytes(b0: u8, b1: u8, b2: u8, b3: u8) -> u32 {
    (b0 as u32) | ((b1 as u32) << 8u32) | ((b2 as u32) << 16u32) | ((b3 as u32) << 24u32)
}

pub open spec fn spec_u16_from_bytes(b0: u8, b1: u8) -> u16 {
    (b0 as u16) | ((b1 as u16) << 8u16)
}

/// The `u32` stored little-endian at `start`.
pub open spec fn spec_read_u32(bytes: Seq<u8>, start: int) -> u32 {
    spec_u32_from_bytes(bytes[start], bytes[start + 1], bytes[start + 2], bytes[start + 3])
}

/// The `u16` stored little-endian at `start`.
pub open spec fn spec_read_u16(bytes: Seq<u8>, start: int) -> u16 {
    spec_u16_from_bytes(bytes[start], bytes[start + 1])
}

/// Little-endian bytes of `x`.
pub open spec fn spec_u32_bytes(x: u32) -> Seq<u8> {
    seq![(x & 0xFF) as u8, ((x >> 8u32) & 0xFF) as u8, ((x >> 16u32) & 0xFF) as u8, ((x >> 24u32) & 0xFF) as u8]
}

/// Little-endian bytes of `x`.
pub open spec fn spec_u16_bytes(x: u16) -> Seq<u8> {
    seq![(x & 0xFF) as u8, ((x >> 8u16) & 0xFF) as u8]
}

pub proof fn lemma_u32_round_trip(x: u32)
    ensures
        spec_u32_from_bytes(
            spec_u32_bytes(x)[0],
            spec_u32_bytes(x)[1],
            spec_u32_bytes(x)[2],
            spec_u32_bytes(x)[3],
        ) == x,
{
    assert(((((x & 0xFF) as u8) as u32) | (((((x >> 8u32) & 0xFF) as u8) as u32) << 8u32) | (((((x
        >> 16u32) & 0xFF) as u8) as u32) << 16u32) | (((((x >> 24u32) & 0xFF) as u8) as u32)
        << 24u32)) == x) by (bit_vector);
}

pub proof fn lemma_u16_round_trip(x: u16)
    ensures
        spec_u16_from_bytes(spec_u16_bytes(x)[0], spec_u16_bytes(x)[1]) == x,
{
    assert(((((x & 0xFF) as u8) as u16) | (((((x >> 8u16) & 0xFF) as u8) as u16) << 8u16)) == x)
        by (bit_vector);
}

/// Reads a little-endian `u32` at `start`; a read past the end is a
/// contract violation.
pub fn read_u32_le(bytes: &[u8], start: usize) -> (r: Result<u32, EngineError>)
    requires
        start <= usize::MAX - 4,
    ensures
        r is Ok <==> start + 4 <= bytes@.len(),
        r matches Ok(v) ==> v == spec_read_u32(bytes@, start as int),
        r matches Err(e) ==> e is ContractViolation,
{
    let end = start + 4;
    if end > bytes.len() {
        return Err(
            EngineError::ContractViolation("unexpected end of payload when reading u32".to_string()),
        );
    }
    Ok((bytes[start] as u32) | ((bytes[start + 1] as u32) << 8u32) | ((bytes[start + 2] as u32)
        << 16u32) | ((bytes[start + 3] as u32) << 24u32))
}

/// Reads a little-endian `u16` at `start`; a read past the end is a
/// contract violation.
pub fn read_u16_le(bytes: &[u8], start: usize) -> (r: Result<u16, EngineError>)
    requires
        start <= usize::MAX - 2,
    ensures
        r is Ok <==> start + 2 <= bytes@.len(),
        r matches Ok(v) ==> v == spec_read_u16(bytes@, start as int),
        r matches Err(e) ==> e is ContractViolation,
{
    let end = start + 2;
    if end > bytes.len() {
        return Err(
            EngineError::ContractViolation("unexpected end of payload when reading u16".to_string()),
        );
    }
    Ok((bytes[start] as u16) | ((bytes[start + 1] as u16) << 8u16))
}

/// Reads the bit pattern of a little-endian `f32` at `start`; a read past the
/// end is a contract violation. The value is handed on as its IEEE-754 bits.
pub fn read_f32_bits_le(bytes: &[u8], start: usize) -> (r: Result<u32, EngineError>)
    requires
        start <= usize::MAX - 4,
    ensures
        r is Ok <==> start + 4 <= bytes@.len(),
        r matches Ok(v) ==> v == spec_read_u32(bytes@, start as int),
        r matches Err(e) ==> e is ContractViolation,
{
    let end = start + 4;
    if end > bytes.len() {
        return Err(
            EngineError::ContractViolation("unexpected end of payload when reading f32".to_string()),
        );
    }
    Ok((bytes[start] as u32) | ((bytes[start + 1] as u32) << 8u32) | ((bytes[start + 2] as u32)
        << 16u32) | ((bytes[start + 3] as u32) << 24u32))
}

/// Appends the little-endian bytes of `x`.
pub fn push_u32_le(out: &mut Vec<u8>, x: u32)
    ensures
        final(out)@ == old(out)@ + spec_u32_bytes(x),
{
    out.push((x & 0xFF) as u8);
    out.push(((x >> 8u32) & 0xFF) as u8);
    out.push(((x >> 16u32) & 0xFF) as u8);
    out.push(((x >> 24u32) & 0xFF) as u8);
    assert(out@ =~= old(out)@ + spec_u32_bytes(x));
}

/// Appends the little-endian bytes of `x`.
pub fn push_u16_le(out: &mut Vec<u8>, x: u16)
    ensures
        final(out)@ == old(out)@ + spec_u16_bytes(x),
{
    out.push((x & 0xFF) as u8);
    out.push(((x >> 8u16) & 0xFF) as u8);
    assert(out@ =~= old(out)@ + spec_u16_bytes(x));
}

/// An IEEE-754 single whose bits are `bits` is finite (exponent not all ones).
pub open spec fn spec_f32_bits_finite(bits: u32) -> bool {
    (bits >> 23u32) & 0xFF != 0xFF
}

/// Finiteness of the `f32` with bit pattern `bits`.
pub fn f32_bits_finite(bits: u32) -> (r: bool)
    ensures
        r == spec_f32_bits_finite(bits),
{
    (bits >> 23u32) & 0xFF != 0xFF
}

} // verus!
