//! Fixed-point decimals (`mantissa × 10^(−scale)`) and their wire forms.

use vstd::prelude::*;

use crate::bytes::{be_bytes, be_value, lemma_be_bytes_len, lemma_be_round_trip, pow256, push_be, read_be};
use crate::error::CodecError;

verus! {

/// A non-negative decimal number: `mantissa × 10^(−scale)`.
#[derive(Clone, Copy, Debug, PartialEq, Eq, Structural)]
pub struct Decimal {
    pub mantissa: u128,
    pub scale: u8,
}

/// `2^32`: the 5-byte form holds mantissas below this.
pub const MANTISSA5_LIMIT: u128 = 0x1_0000_0000;

/// `2^72`: the 10-byte form holds mantissas below this.
pub const MANTISSA10_LIMIT: u128 = 0x100_0000_0000_0000_0000;

pub proof fn lemma_pow256_values()
    ensures
        pow256(4) == MANTISSA5_LIMIT,
        pow256(9) == MANTISSA10_LIMIT,
        pow256(2) == 65536,
        pow256(6) == 0x1_0000_0000_0000,
{
    reveal_with_fuel(pow256, 10);
}

/// The numeric in `w + 1` bytes: `w` bytes of mantissa, then the scale.
pub open spec fn num_bytes(d: Decimal, w: nat) -> Seq<u8> {
    be_bytes(d.mantissa as nat, w) + seq![d.scale]
}

/// The numeric that the bytes `s` hold: a big-endian mantissa, then one byte of scale.
pub open spec fn num_from_bytes(s: Seq<u8>) -> Decimal {
    Decimal { mantissa: be_value(s.drop_last()) as u128, scale: s.last() }
}

/// The 5-byte form holds `d`.
pub open spec fn fits5(d: Decimal) -> bool {
    d.mantissa < MANTISSA5_LIMIT
}

/// The 10-byte form holds `d`.
pub open spec fn fits10(d: Decimal) -> bool {
    d.mantissa < MANTISSA10_LIMIT
}

/// What encoding `d` in the 5-byte form gives.
pub open spec fn encode5_result(d: Decimal) -> Result<Seq<u8>, CodecError> {
    if fits5(d) {
        Ok(num_bytes(d, 4))
    } else {
        Err(CodecError::EncodeOverflow)
    }
}

/// What encoding `d` in the 10-byte form gives.
pub open spec fn encode10_result(d: Decimal) -> Result<Seq<u8>, CodecError> {
    if fits10(d) {
        Ok(num_bytes(d, 9))
    } else {
        Err(CodecError::EncodeOverflow)
    }
}

/// What decoding a numeric of `width` bytes at `pos` of `b` gives.
pub open spec fn decode_num_result(b: Seq<u8>, pos: int, width: int) -> Result<Decimal, CodecError> {
    if pos + width <= b.len() {
        Ok(num_from_bytes(b.subrange(pos, pos + width)))
    } else {
        Err(CodecError::TruncatedInput)
    }
}

/// A numeric written in `w + 1` bytes reads back as itself.
pub proof fn lemma_num_round_trip(d: Decimal, w: nat)
    requires
        d.mantissa < pow256(w),
    ensures
        num_from_bytes(num_bytes(d, w)) == d,
        num_bytes(d, w).len() == w + 1,
{
    lemma_be_bytes_len(d.mantissa as nat, w);
    let s = num_bytes(d, w);
    assert(s.drop_last() =~= be_bytes(d.mantissa as nat, w));
    lemma_be_round_trip(d.mantissa as nat, w);
}

/// Numeric round trip: a decimal that the 5-byte form holds decodes from its
/// encoding as itself, and so does one that the 10-byte form holds.
pub proof fn numeric_round_trip(d: Decimal)
    ensures
        fits5(d) ==> encode5_result(d) is Ok && decode_num_result(encode5_result(d)->Ok_0, 0, 5)
            == Ok::<Decimal, CodecError>(d),
        fits10(d) ==> encode10_result(d) is Ok && decode_num_result(encode10_result(d)->Ok_0, 0, 10)
            == Ok::<Decimal, CodecError>(d),
{
    lemma_pow256_values();
    if fits5(d) {
        lemma_num_round_trip(d, 4);
        assert(num_bytes(d, 4).subrange(0, 5) =~= num_bytes(d, 4));
    }
    if fits10(d) {
        lemma_num_round_trip(d, 9);
        assert(num_bytes(d, 9).subrange(0, 10) =~= num_bytes(d, 9));
    }
}

/// Appends the numeric in `w + 1` bytes.
pub fn push_num(out: &mut Vec<u8>, d: Decimal, w: usize)
    requires
        w <= 9,
        d.mantissa < pow256(w as nat),
    ensures
        final(out)@ == old(out)@ + num_bytes(d, w as nat),
{
    let ghost start = out@;
    push_be(out, d.mantissa, w);
    out.push(d.scale);
    assert(out@ =~= start + num_bytes(d, w as nat));
}

/// Encodes `d` in the 5-byte form: a 4-byte big-endian mantissa, then the scale.
pub fn encode_decimal5(d: Decimal) -> (r: Result<Vec<u8>, CodecError>)
    ensures
        match r {
            Ok(v) => encode5_result(d) == Ok::<Seq<u8>, CodecError>(v@),
            Err(e) => encode5_result(d) == Err::<Seq<u8>, CodecError>(e),
        },
{
    proof {
        lemma_pow256_values();
    }
    if d.mantissa < MANTISSA5_LIMIT {
        let mut out: Vec<u8> = Vec::new();
        push_num(&mut out, d, 4);
        assert(out@ =~= num_bytes(d, 4));
        Ok(out)
    } else {
        Err(CodecError::EncodeOverflow)
    }
}

/// Encodes `d` in the 10-byte form: a 9-byte big-endian mantissa, then the scale.
pub fn encode_decimal10(d: Decimal) -> (r: Result<Vec<u8>, CodecError>)
    ensures
        match r {
            Ok(v) => encode10_result(d) == Ok::<Seq<u8>, CodecError>(v@),
            Err(e) => encode10_result(d) == Err::<Seq<u8>, CodecError>(e),
        },
{
    proof {
        lemma_pow256_values();
    }
    if d.mantissa < MANTISSA10_LIMIT {
        let mut out: Vec<u8> = Vec::new();
        push_num(&mut out, d, 9);
        assert(out@ =~= num_bytes(d, 9));
        Ok(out)
    } else {
        Err(CodecError::EncodeOverflow)
    }
}

/// Decodes the numeric of `width` bytes (5 or 10) that starts at `pos` of `b`.
pub fn decode_decimal(b: &Vec<u8>, pos: usize, width: usize) -> (r: Result<Decimal, CodecError>)
    requires
        width == 5 || width == 10,
    ensures
        r == decode_num_result(b@, pos as int, width as int),
{
    if pos > b.len() || b.len() - pos < width {
        return Err(CodecError::TruncatedInput);
    }
    let m = read_be(b, pos, width - 1);
    let sc = b[pos + width - 1];
    let ghost s = b@.subrange(pos as int, pos + width);
    assert(s.drop_last() =~= b@.subrange(pos as int, pos + width - 1));
    Ok(Decimal { mantissa: m, scale: sc })
}

} // verus!
