//! The common header: exchange timestamp (6 bytes), received timestamp
//! (6 bytes), exchange, market type and message type (a byte each), pair
//! (2 bytes); all integers big-endian.

use vstd::prelude::*;

use crate::bytes::{be_bytes, be_value, lemma_be_bytes_len, lemma_be_round_trip, pow256, push_be, read_be};
use crate::decimal::lemma_pow256_values;
use crate::error::CodecError;
use crate::tables::{
    exchange_code, exchange_from_code, exchange_name, exchange_to_code, market_type_code,
    market_type_from_code, market_type_in_table, market_type_of, market_type_to_code,
    message_type_code, message_type_from_code, message_type_of, message_type_to_code, pair_code,
    pair_from_code, pair_name, pair_to_code, MarketType, MessageType,
};

verus! {

/// Length of the header in bytes.
pub const HEADER_LEN: usize = 17;

/// `2^48`: exchange timestamps must stay below this.
pub const TIMESTAMP_LIMIT: i64 = 0x1_0000_0000_0000;

/// The fields that the header carries, as decoded.
#[derive(Clone, Debug)]
pub struct Header {
    pub exchange: String,
    pub market_type: MarketType,
    pub msg_type: MessageType,
    pub pair: String,
    pub timestamp: i64,
}

/// Exchange, market type, message type, pair and exchange timestamp.
pub type HeaderFields = (Seq<char>, MarketType, MessageType, Seq<char>, int);

impl View for Header {
    type V = HeaderFields;

    open spec fn view(&self) -> HeaderFields {
        (self.exchange@, self.market_type, self.msg_type, self.pair@, self.timestamp as int)
    }
}

/// The header bytes for codes already looked up.
pub open spec fn header_bytes(
    exchange: u8,
    market_type: MarketType,
    msg_type: MessageType,
    pair: u16,
    timestamp: nat,
    received: nat,
) -> Seq<u8> {
    be_bytes(timestamp, 6) + be_bytes(received, 6) + seq![
        exchange,
        market_type_code(market_type),
        message_type_code(msg_type),
    ] + be_bytes(pair as nat, 2)
}

/// What encoding a header gives; the received timestamp keeps its low 48 bits.
pub open spec fn header_result(h: HeaderFields, received: u64) -> Result<Seq<u8>, CodecError> {
    if exchange_code(h.0) is None || pair_code(h.3) is None {
        Err(CodecError::UnknownEnumString)
    } else if !(0 <= h.4 < TIMESTAMP_LIMIT) {
        Err(CodecError::EncodeOverflow)
    } else {
        Ok(
            header_bytes(
                exchange_code(h.0)->Some_0,
                h.1,
                h.2,
                pair_code(h.3)->Some_0,
                h.4 as nat,
                received as nat,
            ),
        )
    }
}

/// What decoding the header at the start of `b` gives.
pub open spec fn parse_header(b: Seq<u8>) -> Result<HeaderFields, CodecError> {
    if b.len() < HEADER_LEN {
        Err(CodecError::TruncatedInput)
    } else {
        Ok(
            (
                exchange_name(b[12]),
                market_type_of(b[13]),
                message_type_of(b[14]),
                pair_name(be_value(b.subrange(15, 17)) as u16),
                be_value(b.subrange(0, 6)) as int,
            ),
        )
    }
}

/// Appends the header of a message; the received timestamp keeps its low 48 bits.
pub fn push_header(
    out: &mut Vec<u8>,
    exchange: &str,
    market_type: MarketType,
    msg_type: MessageType,
    pair: &str,
    timestamp: i64,
    received: u64,
) -> (r: Result<(), CodecError>)
    ensures
        match header_result((exchange@, market_type, msg_type, pair@, timestamp as int), received) {
            Ok(h) => r is Ok && final(out)@ == old(out)@ + h,
            Err(e) => r == Err::<(), CodecError>(e) && final(out)@ == old(out)@,
        },
{
    let ex = exchange_to_code(exchange);
    let pc = pair_to_code(pair);
    if ex.is_none() || pc.is_none() {
        return Err(CodecError::UnknownEnumString);
    }
    if timestamp < 0 || timestamp >= TIMESTAMP_LIMIT {
        return Err(CodecError::EncodeOverflow);
    }
    let ex = ex.unwrap();
    let pc = pc.unwrap();
    let ghost start = out@;
    push_be(out, timestamp as u128, 6);
    push_be(out, received as u128, 6);
    out.push(ex);
    out.push(market_type_to_code(market_type));
    out.push(message_type_to_code(msg_type));
    push_be(out, pc as u128, 2);
    assert(out@ =~= start + header_bytes(ex, market_type, msg_type, pc, timestamp as nat, received as nat));
    Ok(())
}

/// Decodes the header at the start of `b`; the received timestamp is read and dropped.
pub fn decode_header(b: &Vec<u8>) -> (r: Result<Header, CodecError>)
    ensures
        match r {
            Ok(h) => parse_header(b@) == Ok::<HeaderFields, CodecError>(h@),
            Err(e) => parse_header(b@) == Err::<HeaderFields, CodecError>(e),
        },
{
    if b.len() < HEADER_LEN {
        return Err(CodecError::TruncatedInput);
    }
    let ts = read_be(b, 0, 6);
    proof {
        crate::bytes::lemma_be_value_bound(b@.subrange(0, 6));
        lemma_pow256_values();
    }
    let pc = read_be(b, 15, 2);
    proof {
        crate::bytes::lemma_be_value_bound(b@.subrange(15, 17));
    }
    Ok(Header {
        exchange: exchange_from_code(b[12]),
        market_type: market_type_from_code(b[13]),
        msg_type: message_type_from_code(b[14]),
        pair: pair_from_code(pc as u16),
        timestamp: ts as i64,
    })
}

/// The header fields that survive a round trip: names and pairs from the
/// tables, market types the table lists under their own code, message types
/// other than `TakerVolume` (which shares its code with `LongShortRatio`),
/// and exchange timestamps below `2^48`.
pub open spec fn header_in_tables(h: HeaderFields) -> bool {
    &&& exchange_code(h.0) is Some
    &&& pair_code(h.3) is Some
    &&& market_type_in_table(h.1)
    &&& h.2 != MessageType::TakerVolume
    &&& 0 <= h.4 < TIMESTAMP_LIMIT
}

proof fn lemma_header_bytes_parse(
    exchange: u8,
    market_type: MarketType,
    msg_type: MessageType,
    pair: u16,
    timestamp: nat,
    received: nat,
    rest: Seq<u8>,
)
    requires
        timestamp < pow256(6),
    ensures
        ({
            let b = header_bytes(exchange, market_type, msg_type, pair, timestamp, received) + rest;
            &&& header_bytes(exchange, market_type, msg_type, pair, timestamp, received).len()
                == HEADER_LEN
            &&& parse_header(b) == Ok::<HeaderFields, CodecError>(
                (
                    exchange_name(exchange),
                    market_type_of(market_type_code(market_type)),
                    message_type_of(message_type_code(msg_type)),
                    pair_name(pair),
                    timestamp as int,
                ),
            )
        }),
{
    lemma_pow256_values();
    lemma_be_bytes_len(timestamp, 6);
    lemma_be_bytes_len(received, 6);
    lemma_be_bytes_len(pair as nat, 2);
    let hb = header_bytes(exchange, market_type, msg_type, pair, timestamp, received);
    let b = hb + rest;
    assert(b.subrange(0, 6) =~= be_bytes(timestamp, 6));
    assert(b.subrange(15, 17) =~= be_bytes(pair as nat, 2));
    lemma_be_round_trip(timestamp, 6);
    lemma_be_round_trip(pair as nat, 2);
    assert(b[12] == exchange);
    assert(b[13] == market_type_code(market_type));
    assert(b[14] == message_type_code(msg_type));
}

/// Header round trip: a header whose fields are in the tables encodes, and
/// the header decoded from those bytes (followed by anything) has the same
/// exchange, market type, message type, pair and exchange timestamp.
pub proof fn header_round_trip(h: HeaderFields, received: u64, rest: Seq<u8>)
    requires
        header_in_tables(h),
    ensures
        header_result(h, received) is Ok,
        header_result(h, received)->Ok_0.len() == HEADER_LEN,
        parse_header(header_result(h, received)->Ok_0 + rest) == Ok::<HeaderFields, CodecError>(h),
{
    lemma_pow256_values();
    let ex = exchange_code(h.0)->Some_0;
    let pc = pair_code(h.3)->Some_0;
    lemma_header_bytes_parse(ex, h.1, h.2, pc, h.4 as nat, received as nat, rest);
    assert(exchange_name(ex) == h.0);
    assert(pair_name(pc) == h.3);
    assert(market_type_of(market_type_code(h.1)) == h.1);
    assert(message_type_of(message_type_code(h.2)) == h.2);
}

} // verus!
verus! {

proof fn lemma_be_bytes_first(v: nat, w: nat)
    requires
        w >= 2,
    ensures
        be_bytes(v, w)[0] == be_bytes(v / 256, (w - 1) as nat)[0],
{
    lemma_be_bytes_len(v / 256, (w - 1) as nat);
}

/// Timestamp width: in an encoded header the exchange timestamp takes exactly
/// the first 6 bytes, which read back as the timestamp, and the first byte is
/// bits 40 to 47 of the timestamp.
pub proof fn timestamp_width(h: HeaderFields, received: u64)
    requires
        header_result(h, received) is Ok,
    ensures
        ({
            let b = header_result(h, received)->Ok_0;
            let ts = h.4 as u64;
            &&& b.subrange(0, 6) == be_bytes(h.4 as nat, 6)
            &&& be_value(b.subrange(0, 6)) == h.4
            &&& b[0] == ((ts >> 40u64) & 0xffu64) as u8
        }),
{
    lemma_pow256_values();
    let b = header_result(h, received)->Ok_0;
    let v = h.4 as nat;
    let ts = h.4 as u64;
    lemma_be_bytes_len(v, 6);
    lemma_be_bytes_len(received as nat, 6);
    assert(b.subrange(0, 6) =~= be_bytes(v, 6));
    lemma_be_round_trip(v, 6);
    lemma_be_bytes_first(v, 6);
    lemma_be_bytes_first(v / 256, 5);
    lemma_be_bytes_first(v / 256 / 256, 4);
    lemma_be_bytes_first(v / 256 / 256 / 256, 3);
    lemma_be_bytes_first(v / 256 / 256 / 256 / 256, 2);
    let x = v / 256 / 256 / 256 / 256 / 256;
    assert(be_bytes(x, 1) =~= seq![(x % 256) as u8]) by {
        reveal_with_fuel(be_bytes, 2);
    }
    assert(((ts >> 40u64) & 0xffu64) == ((((ts / 256) / 256) / 256) / 256 / 256) % 256)
        by (bit_vector);
    assert(b[0] == be_bytes(v, 6)[0]);
}

} // verus!
