//! Trade, best-bid-offer and kline messages on the wire. Each is the header
//! followed by a fixed body:
//! - trade: side (1 byte), price, base quantity;
//! - BBO: ask price, ask base quantity, bid price, bid base quantity;
//! - kline: period (1 byte), open, high, low, close, then the volume in the
//!   10-byte numeric form.
//!
//! Numerics are in the 5-byte form unless said otherwise.

use vstd::prelude::*;

use crate::decimal::{
    decode_decimal, fits10, fits5, lemma_num_round_trip, lemma_pow256_values, num_bytes,
    num_from_bytes, push_num, Decimal, MANTISSA10_LIMIT, MANTISSA5_LIMIT,
};
use crate::error::CodecError;
use crate::header::{
    decode_header, header_in_tables, header_result, header_round_trip, parse_header, push_header,
    HeaderFields,
};
use crate::messages::{BboMsg, KlineMsg, TradeMsg};
use crate::tables::{
    period_code, period_from_code, period_name, period_to_code, trade_side_code,
    trade_side_from_code, trade_side_of, trade_side_to_code, TradeSide,
};

verus! {

/// Length of an encoded trade.
pub const TRADE_LEN: usize = 28;

/// Length of an encoded BBO quote.
pub const BBO_LEN: usize = 37;

/// Length of an encoded kline.
pub const KLINE_LEN: usize = 48;

pub open spec fn trade_header(t: TradeMsg) -> HeaderFields {
    (t.exchange@, t.market_type, t.msg_type, t.pair@, t.timestamp as int)
}

pub open spec fn bbo_header(q: BboMsg) -> HeaderFields {
    (q.exchange@, q.market_type, q.msg_type, q.pair@, q.timestamp as int)
}

pub open spec fn kline_header(k: KlineMsg) -> HeaderFields {
    (k.exchange@, k.market_type, k.msg_type, k.pair@, k.timestamp as int)
}

/// The transmitted fields of a trade.
pub open spec fn trade_fields(t: TradeMsg) -> (HeaderFields, TradeSide, Decimal, Decimal) {
    (trade_header(t), t.side, t.price, t.quantity_base)
}

/// The transmitted fields of a BBO quote.
pub open spec fn bbo_fields(q: BboMsg) -> (HeaderFields, Decimal, Decimal, Decimal, Decimal) {
    (bbo_header(q), q.ask_price, q.ask_quantity_base, q.bid_price, q.bid_quantity_base)
}

/// The transmitted fields of a kline.
pub open spec fn kline_fields(k: KlineMsg) -> (
    HeaderFields,
    Seq<char>,
    Decimal,
    Decimal,
    Decimal,
    Decimal,
    Decimal,
) {
    (kline_header(k), k.period@, k.open, k.high, k.low, k.close, k.volume)
}

/// What encoding a trade gives.
pub open spec fn trade_result(t: TradeMsg, received: u64) -> Result<Seq<u8>, CodecError> {
    match header_result(trade_header(t), received) {
        Err(e) => Err(e),
        Ok(h) => if fits5(t.price) && fits5(t.quantity_base) {
            Ok(h + seq![trade_side_code(t.side)] + num_bytes(t.price, 4) + num_bytes(t.quantity_base, 4))
        } else {
            Err(CodecError::EncodeOverflow)
        },
    }
}

/// What encoding a BBO quote gives.
pub open spec fn bbo_result(q: BboMsg, received: u64) -> Result<Seq<u8>, CodecError> {
    match header_result(bbo_header(q), received) {
        Err(e) => Err(e),
        Ok(h) => if fits5(q.ask_price) && fits5(q.ask_quantity_base) && fits5(q.bid_price) && fits5(
            q.bid_quantity_base,
        ) {
            Ok(
                h + num_bytes(q.ask_price, 4) + num_bytes(q.ask_quantity_base, 4) + num_bytes(
                    q.bid_price,
                    4,
                ) + num_bytes(q.bid_quantity_base, 4),
            )
        } else {
            Err(CodecError::EncodeOverflow)
        },
    }
}

/// What encoding a kline gives.
pub open spec fn kline_result(k: KlineMsg, received: u64) -> Result<Seq<u8>, CodecError> {
    if period_code(k.period@) is None {
        Err(CodecError::UnknownEnumString)
    } else {
        match header_result(kline_header(k), received) {
            Err(e) => Err(e),
            Ok(h) => if fits5(k.open) && fits5(k.high) && fits5(k.low) && fits5(k.close) && fits10(
                k.volume,
            ) {
                Ok(
                    h + seq![period_code(k.period@)->Some_0] + num_bytes(k.open, 4) + num_bytes(
                        k.high,
                        4,
                    ) + num_bytes(k.low, 4) + num_bytes(k.close, 4) + num_bytes(k.volume, 9),
                )
            } else {
                Err(CodecError::EncodeOverflow)
            },
        }
    }
}

/// The 5-byte numeric at `pos` of `b`.
pub open spec fn num5_at(b: Seq<u8>, pos: int) -> Decimal {
    num_from_bytes(b.subrange(pos, pos + 5))
}

/// What decoding a trade gives.
pub open spec fn decode_trade_result(b: Seq<u8>) -> Result<
    (HeaderFields, TradeSide, Decimal, Decimal),
    CodecError,
> {
    match parse_header(b) {
        Err(e) => Err(e),
        Ok(h) => if b.len() < TRADE_LEN {
            Err(CodecError::TruncatedInput)
        } else {
            Ok((h, trade_side_of(b[17]), num5_at(b, 18), num5_at(b, 23)))
        },
    }
}

/// What decoding a BBO quote gives.
pub open spec fn decode_bbo_result(b: Seq<u8>) -> Result<
    (HeaderFields, Decimal, Decimal, Decimal, Decimal),
    CodecError,
> {
    match parse_header(b) {
        Err(e) => Err(e),
        Ok(h) => if b.len() < BBO_LEN {
            Err(CodecError::TruncatedInput)
        } else {
            Ok((h, num5_at(b, 17), num5_at(b, 22), num5_at(b, 27), num5_at(b, 32)))
        },
    }
}

/// What decoding a kline gives.
pub open spec fn decode_kline_result(b: Seq<u8>) -> Result<
    (HeaderFields, Seq<char>, Decimal, Decimal, Decimal, Decimal, Decimal),
    CodecError,
> {
    match parse_header(b) {
        Err(e) => Err(e),
        Ok(h) => if b.len() < KLINE_LEN {
            Err(CodecError::TruncatedInput)
        } else {
            Ok(
                (
                    h,
                    period_name(b[17]),
                    num5_at(b, 18),
                    num5_at(b, 23),
                    num5_at(b, 28),
                    num5_at(b, 33),
                    num_from_bytes(b.subrange(38, 48)),
                ),
            )
        },
    }
}

/// Encodes a trade; `received` is written as the received timestamp.
pub fn encode_trade(trade: &TradeMsg, received: u64) -> (r: Result<Vec<u8>, CodecError>)
    ensures
        match r {
            Ok(v) => trade_result(*trade, received) == Ok::<Seq<u8>, CodecError>(v@),
            Err(e) => trade_result(*trade, received) == Err::<Seq<u8>, CodecError>(e),
        },
{
    proof {
        lemma_pow256_values();
    }
    let mut out: Vec<u8> = Vec::new();
    match push_header(
        &mut out,
        trade.exchange.as_str(),
        trade.market_type,
        trade.msg_type,
        trade.pair.as_str(),
        trade.timestamp,
        received,
    ) {
        Err(e) => {
            return Err(e);
        },
        Ok(_) => {},
    }
    if trade.price.mantissa >= MANTISSA5_LIMIT || trade.quantity_base.mantissa >= MANTISSA5_LIMIT {
        return Err(CodecError::EncodeOverflow);
    }
    let ghost h = out@;
    out.push(trade_side_to_code(trade.side));
    push_num(&mut out, trade.price, 4);
    push_num(&mut out, trade.quantity_base, 4);
    assert(out@ =~= h + seq![trade_side_code(trade.side)] + num_bytes(trade.price, 4) + num_bytes(
        trade.quantity_base,
        4,
    ));
    Ok(out)
}

/// Encodes a BBO quote; `received` is written as the received timestamp.
pub fn encode_bbo(bbo: &BboMsg, received: u64) -> (r: Result<Vec<u8>, CodecError>)
    ensures
        match r {
            Ok(v) => bbo_result(*bbo, received) == Ok::<Seq<u8>, CodecError>(v@),
            Err(e) => bbo_result(*bbo, received) == Err::<Seq<u8>, CodecError>(e),
        },
{
    proof {
        lemma_pow256_values();
    }
    let mut out: Vec<u8> = Vec::new();
    match push_header(
        &mut out,
        bbo.exchange.as_str(),
        bbo.market_type,
        bbo.msg_type,
        bbo.pair.as_str(),
        bbo.timestamp,
        received,
    ) {
        Err(e) => {
            return Err(e);
        },
        Ok(_) => {},
    }
    if bbo.ask_price.mantissa >= MANTISSA5_LIMIT || bbo.ask_quantity_base.mantissa
        >= MANTISSA5_LIMIT || bbo.bid_price.mantissa >= MANTISSA5_LIMIT
        || bbo.bid_quantity_base.mantissa >= MANTISSA5_LIMIT {
        return Err(CodecError::EncodeOverflow);
    }
    let ghost h = out@;
    push_num(&mut out, bbo.ask_price, 4);
    push_num(&mut out, bbo.ask_quantity_base, 4);
    push_num(&mut out, bbo.bid_price, 4);
    push_num(&mut out, bbo.bid_quantity_base, 4);
    assert(out@ =~= h + num_bytes(bbo.ask_price, 4) + num_bytes(bbo.ask_quantity_base, 4)
        + num_bytes(bbo.bid_price, 4) + num_bytes(bbo.bid_quantity_base, 4));
    Ok(out)
}

/// Encodes a kline; `received` is written as the received timestamp. The
/// quote volume is not carried.
pub fn encode_kline(kline: &KlineMsg, received: u64) -> (r: Result<Vec<u8>, CodecError>)
    ensures
        match r {
            Ok(v) => kline_result(*kline, received) == Ok::<Seq<u8>, CodecError>(v@),
            Err(e) => kline_result(*kline, received) == Err::<Seq<u8>, CodecError>(e),
        },
{
    proof {
        lemma_pow256_values();
    }
    let period = match period_to_code(kline.period.as_str()) {
        Some(p) => p,
        None => {
            return Err(CodecError::UnknownEnumString);
        },
    };
    let mut out: Vec<u8> = Vec::new();
    match push_header(
        &mut out,
        kline.exchange.as_str(),
        kline.market_type,
        kline.msg_type,
        kline.pair.as_str(),
        kline.timestamp,
        received,
    ) {
        Err(e) => {
            return Err(e);
        },
        Ok(_) => {},
    }
    if kline.open.mantissa >= MANTISSA5_LIMIT || kline.high.mantissa >= MANTISSA5_LIMIT
        || kline.low.mantissa >= MANTISSA5_LIMIT || kline.close.mantissa >= MANTISSA5_LIMIT
        || kline.volume.mantissa >= MANTISSA10_LIMIT {
        return Err(CodecError::EncodeOverflow);
    }
    let ghost h = out@;
    out.push(period);
    push_num(&mut out, kline.open, 4);
    push_num(&mut out, kline.high, 4);
    push_num(&mut out, kline.low, 4);
    push_num(&mut out, kline.close, 4);
    push_num(&mut out, kline.volume, 9);
    assert(out@ =~= h + seq![period] + num_bytes(kline.open, 4) + num_bytes(kline.high, 4)
        + num_bytes(kline.low, 4) + num_bytes(kline.close, 4) + num_bytes(kline.volume, 9));
    Ok(out)
}

fn num5_at_exec(b: &Vec<u8>, pos: usize) -> (r: Decimal)
    requires
        pos + 5 <= b@.len(),
    ensures
        r == num5_at(b@, pos as int),
{
    decode_decimal(b, pos, 5).unwrap()
}

/// Decodes a trade. The quote quantity comes back zero, the contract
/// quantity absent, the symbol equal to the pair, the trade id and raw text
/// empty.
pub fn decode_trade(payload: &Vec<u8>) -> (r: Result<TradeMsg, CodecError>)
    ensures
        match decode_trade_result(payload@) {
            Ok(x) => r is Ok && trade_fields(r->Ok_0) == x && r->Ok_0.symbol@ == x.0.3
                && r->Ok_0.quantity_quote == crate::messages::zero()
                && r->Ok_0.quantity_contract is None && r->Ok_0.trade_id@.len() == 0
                && r->Ok_0.json@.len() == 0,
            Err(e) => r == Err::<TradeMsg, CodecError>(e),
        },
{
    let header = match decode_header(payload) {
        Ok(h) => h,
        Err(e) => {
            return Err(e);
        },
    };
    if payload.len() < TRADE_LEN {
        return Err(CodecError::TruncatedInput);
    }
    let side = trade_side_from_code(payload[17]);
    let price = num5_at_exec(payload, 18);
    let quantity_base = num5_at_exec(payload, 23);
    let symbol = header.pair.clone();
    Ok(TradeMsg {
        exchange: header.exchange,
        market_type: header.market_type,
        msg_type: header.msg_type,
        pair: header.pair,
        symbol,
        timestamp: header.timestamp,
        side,
        price,
        quantity_base,
        quantity_quote: Decimal { mantissa: 0, scale: 0 },
        quantity_contract: None,
        trade_id: String::new(),
        json: String::new(),
    })
}

/// Decodes a BBO quote. Quote quantities come back zero, contract
/// quantities and the id absent, the symbol equal to the pair, the raw text
/// empty.
pub fn decode_bbo(payload: &Vec<u8>) -> (r: Result<BboMsg, CodecError>)
    ensures
        match decode_bbo_result(payload@) {
            Ok(x) => r is Ok && bbo_fields(r->Ok_0) == x && r->Ok_0.symbol@ == x.0.3
                && r->Ok_0.ask_quantity_quote == crate::messages::zero()
                && r->Ok_0.bid_quantity_quote == crate::messages::zero()
                && r->Ok_0.ask_quantity_contract is None && r->Ok_0.bid_quantity_contract is None
                && r->Ok_0.id is None && r->Ok_0.json@.len() == 0,
            Err(e) => r == Err::<BboMsg, CodecError>(e),
        },
{
    let header = match decode_header(payload) {
        Ok(h) => h,
        Err(e) => {
            return Err(e);
        },
    };
    if payload.len() < BBO_LEN {
        return Err(CodecError::TruncatedInput);
    }
    let ask_price = num5_at_exec(payload, 17);
    let ask_quantity_base = num5_at_exec(payload, 22);
    let bid_price = num5_at_exec(payload, 27);
    let bid_quantity_base = num5_at_exec(payload, 32);
    let symbol = header.pair.clone();
    Ok(BboMsg {
        exchange: header.exchange,
        market_type: header.market_type,
        msg_type: header.msg_type,
        pair: header.pair,
        symbol,
        timestamp: header.timestamp,
        ask_price,
        ask_quantity_base,
        ask_quantity_quote: Decimal { mantissa: 0, scale: 0 },
        ask_quantity_contract: None,
        bid_price,
        bid_quantity_base,
        bid_quantity_quote: Decimal { mantissa: 0, scale: 0 },
        bid_quantity_contract: None,
        id: None,
        json: String::new(),
    })
}

/// Decodes a kline. The quote volume comes back absent, the symbol equal
/// to the pair, the raw text empty; an unknown period code reads "unknow".
pub fn decode_kline(payload: &Vec<u8>) -> (r: Result<KlineMsg, CodecError>)
    ensures
        match decode_kline_result(payload@) {
            Ok(x) => r is Ok && kline_fields(r->Ok_0) == x && r->Ok_0.symbol@ == x.0.3
                && r->Ok_0.quote_volume is None && r->Ok_0.json@.len() == 0,
            Err(e) => r == Err::<KlineMsg, CodecError>(e),
        },
{
    let header = match decode_header(payload) {
        Ok(h) => h,
        Err(e) => {
            return Err(e);
        },
    };
    if payload.len() < KLINE_LEN {
        return Err(CodecError::TruncatedInput);
    }
    let period = period_from_code(payload[17]);
    let open = num5_at_exec(payload, 18);
    let high = num5_at_exec(payload, 23);
    let low = num5_at_exec(payload, 28);
    let close = num5_at_exec(payload, 33);
    let volume = decode_decimal(payload, 38, 10).unwrap();
    let symbol = header.pair.clone();
    Ok(KlineMsg {
        exchange: header.exchange,
        market_type: header.market_type,
        msg_type: header.msg_type,
        pair: header.pair,
        symbol,
        timestamp: header.timestamp,
        open,
        high,
        low,
        close,
        volume,
        period,
        quote_volume: None,
        json: String::new(),
    })
}

} // verus!
verus! {

proof fn lemma_num5_at(b: Seq<u8>, pos: int, d: Decimal)
    requires
        0 <= pos,
        pos + 5 <= b.len(),
        b.subrange(pos, pos + 5) == num_bytes(d, 4),
        fits5(d),
    ensures
        num5_at(b, pos) == d,
{
    lemma_pow256_values();
    lemma_num_round_trip(d, 4);
}

/// Trade round trip: a trade whose header fields are in the tables and whose
/// price and base quantity fit the 5-byte form encodes, and decoding the bytes
/// gives back its header, side, price and base quantity.
pub proof fn trade_round_trip(t: TradeMsg, received: u64)
    requires
        header_in_tables(trade_header(t)),
        fits5(t.price),
        fits5(t.quantity_base),
    ensures
        trade_result(t, received) is Ok,
        trade_result(t, received)->Ok_0.len() == TRADE_LEN,
        decode_trade_result(trade_result(t, received)->Ok_0) == Ok::<
            (HeaderFields, TradeSide, Decimal, Decimal),
            CodecError,
        >(trade_fields(t)),
{
    lemma_pow256_values();
    let h = header_result(trade_header(t), received)->Ok_0;
    let body = seq![trade_side_code(t.side)] + num_bytes(t.price, 4) + num_bytes(t.quantity_base, 4);
    header_round_trip(trade_header(t), received, body);
    lemma_num_round_trip(t.price, 4);
    lemma_num_round_trip(t.quantity_base, 4);
    let b = h + seq![trade_side_code(t.side)] + num_bytes(t.price, 4) + num_bytes(t.quantity_base, 4);
    assert(b =~= h + body);
    assert(b[17] == trade_side_code(t.side));
    assert(b.subrange(18, 23) =~= num_bytes(t.price, 4));
    assert(b.subrange(23, 28) =~= num_bytes(t.quantity_base, 4));
    lemma_num5_at(b, 18, t.price);
    lemma_num5_at(b, 23, t.quantity_base);
    assert(trade_side_of(trade_side_code(t.side)) == t.side);
}

/// BBO round trip: a quote whose header fields are in the tables and whose
/// four numerics fit the 5-byte form encodes, and decoding the bytes gives
/// back its header, ask price and quantity, bid price and quantity.
pub proof fn bbo_round_trip(q: BboMsg, received: u64)
    requires
        header_in_tables(bbo_header(q)),
        fits5(q.ask_price),
        fits5(q.ask_quantity_base),
        fits5(q.bid_price),
        fits5(q.bid_quantity_base),
    ensures
        bbo_result(q, received) is Ok,
        bbo_result(q, received)->Ok_0.len() == BBO_LEN,
        decode_bbo_result(bbo_result(q, received)->Ok_0) == Ok::<
            (HeaderFields, Decimal, Decimal, Decimal, Decimal),
            CodecError,
        >(bbo_fields(q)),
{
    lemma_pow256_values();
    let h = header_result(bbo_header(q), received)->Ok_0;
    let body = num_bytes(q.ask_price, 4) + num_bytes(q.ask_quantity_base, 4) + num_bytes(
        q.bid_price,
        4,
    ) + num_bytes(q.bid_quantity_base, 4);
    header_round_trip(bbo_header(q), received, body);
    lemma_num_round_trip(q.ask_price, 4);
    lemma_num_round_trip(q.ask_quantity_base, 4);
    lemma_num_round_trip(q.bid_price, 4);
    lemma_num_round_trip(q.bid_quantity_base, 4);
    let b = h + num_bytes(q.ask_price, 4) + num_bytes(q.ask_quantity_base, 4) + num_bytes(
        q.bid_price,
        4,
    ) + num_bytes(q.bid_quantity_base, 4);
    assert(b =~= h + body);
    assert(b.subrange(17, 22) =~= num_bytes(q.ask_price, 4));
    assert(b.subrange(22, 27) =~= num_bytes(q.ask_quantity_base, 4));
    assert(b.subrange(27, 32) =~= num_bytes(q.bid_price, 4));
    assert(b.subrange(32, 37) =~= num_bytes(q.bid_quantity_base, 4));
    lemma_num5_at(b, 17, q.ask_price);
    lemma_num5_at(b, 22, q.ask_quantity_base);
    lemma_num5_at(b, 27, q.bid_price);
    lemma_num5_at(b, 32, q.bid_quantity_base);
}

/// Kline round trip: a kline whose header fields and period are in the
/// tables, whose prices fit the 5-byte form and whose volume fits the 10-byte
/// form encodes, and decoding the bytes gives back its header, period, open,
/// high, low, close and volume.
pub proof fn kline_round_trip(k: KlineMsg, received: u64)
    requires
        header_in_tables(kline_header(k)),
        period_code(k.period@) is Some,
        fits5(k.open),
        fits5(k.high),
        fits5(k.low),
        fits5(k.close),
        fits10(k.volume),
    ensures
        kline_result(k, received) is Ok,
        kline_result(k, received)->Ok_0.len() == KLINE_LEN,
        decode_kline_result(kline_result(k, received)->Ok_0) == Ok::<
            (HeaderFields, Seq<char>, Decimal, Decimal, Decimal, Decimal, Decimal),
            CodecError,
        >(kline_fields(k)),
{
    lemma_pow256_values();
    let h = header_result(kline_header(k), received)->Ok_0;
    let pc = period_code(k.period@)->Some_0;
    let body = seq![pc] + num_bytes(k.open, 4) + num_bytes(k.high, 4) + num_bytes(k.low, 4)
        + num_bytes(k.close, 4) + num_bytes(k.volume, 9);
    header_round_trip(kline_header(k), received, body);
    lemma_num_round_trip(k.open, 4);
    lemma_num_round_trip(k.high, 4);
    lemma_num_round_trip(k.low, 4);
    lemma_num_round_trip(k.close, 4);
    lemma_num_round_trip(k.volume, 9);
    let b = h + seq![pc] + num_bytes(k.open, 4) + num_bytes(k.high, 4) + num_bytes(k.low, 4)
        + num_bytes(k.close, 4) + num_bytes(k.volume, 9);
    assert(b =~= h + body);
    assert(b[17] == pc);
    assert(period_name(pc) == k.period@);
    assert(b.subrange(18, 23) =~= num_bytes(k.open, 4));
    assert(b.subrange(23, 28) =~= num_bytes(k.high, 4));
    assert(b.subrange(28, 33) =~= num_bytes(k.low, 4));
    assert(b.subrange(33, 38) =~= num_bytes(k.close, 4));
    assert(b.subrange(38, 48) =~= num_bytes(k.volume, 9));
    lemma_num5_at(b, 18, k.open);
    lemma_num5_at(b, 23, k.high);
    lemma_num5_at(b, 28, k.low);
    lemma_num5_at(b, 33, k.close);
}

} // verus!
