//! Order-book messages on the wire: the header, then a side block for the
//! asks and one for the bids. A side block is the side's code (1 asks,
//! 2 bids), the body length in bytes (2 bytes, big-endian) and, for each
//! level, its price and base quantity in the 5-byte numeric form.

use vstd::prelude::*;

use crate::bytes::{be_bytes, be_value, lemma_be_bytes_len, lemma_be_round_trip, push_be, read_be};
use crate::decimal::{
    decode_decimal, fits5, lemma_num_round_trip, lemma_pow256_values, num_bytes, num_from_bytes,
    push_num, Decimal, MANTISSA5_LIMIT,
};
use crate::error::CodecError;
use crate::header::{
    decode_header, header_in_tables, header_result, header_round_trip, parse_header, push_header,
    HeaderFields, HEADER_LEN,
};
use crate::messages::{zero, Order, OrderBookMsg};

verus! {

/// The most levels a side block can describe: its length field is 2 bytes.
pub const MAX_LEVELS: usize = 6553;

pub open spec fn book_header(ob: OrderBookMsg) -> HeaderFields {
    (ob.exchange@, ob.market_type, ob.msg_type, ob.pair@, ob.timestamp as int)
}

/// Every level of `l` fits the 5-byte numeric form, and `l` fits a side block.
pub open spec fn ladder_fits(l: Seq<Order>) -> bool {
    &&& l.len() <= MAX_LEVELS
    &&& forall|i: int| 0 <= i < l.len() ==> level_fits(#[trigger] l[i])
}

/// The price and base quantity of `o` fit the 5-byte numeric form.
pub open spec fn level_fits(o: Order) -> bool {
    fits5(o.price) && fits5(o.quantity_base)
}

/// The bytes of one level: price, then base quantity.
pub open spec fn level_bytes(o: Order) -> Seq<u8> {
    num_bytes(o.price, 4) + num_bytes(o.quantity_base, 4)
}

/// The level bodies of a ladder, in order.
pub open spec fn ladder_bytes(l: Seq<Order>) -> Seq<u8>
    decreases l.len(),
{
    if l.len() == 0 {
        Seq::empty()
    } else {
        ladder_bytes(l.drop_last()) + level_bytes(l.last())
    }
}

/// A side block: code, body length, bodies.
pub open spec fn side_block(code: u8, l: Seq<Order>) -> Seq<u8> {
    seq![code] + be_bytes(10 * l.len(), 2) + ladder_bytes(l)
}

/// What encoding an order book gives, with `received` as the received timestamp.
pub open spec fn orderbook_result(ob: OrderBookMsg, received: u64) -> Result<Seq<u8>, CodecError> {
    match header_result(book_header(ob), received) {
        Err(e) => Err(e),
        Ok(h) => if ladder_fits(ob.asks@) && ladder_fits(ob.bids@) {
            Ok(h + side_block(1, ob.asks@) + side_block(2, ob.bids@))
        } else {
            Err(CodecError::EncodeOverflow)
        },
    }
}

/// The level that 10 bytes describe; quote quantity zero, no contract quantity.
pub open spec fn level_of(b: Seq<u8>) -> Order {
    Order {
        price: num_from_bytes(b.subrange(0, 5)),
        quantity_base: num_from_bytes(b.subrange(5, 10)),
        quantity_quote: zero(),
        quantity_contract: None,
    }
}

/// The levels of a block body, 10 bytes each.
pub open spec fn levels_of(b: Seq<u8>) -> Seq<Order> {
    Seq::new(b.len() / 10, |i: int| level_of(b.subrange(10 * i, 10 * i + 10)))
}

/// Adds levels in front of a decoded pair of ladders.
pub open spec fn prepend(
    asks: Seq<Order>,
    bids: Seq<Order>,
    r: Result<(Seq<Order>, Seq<Order>), CodecError>,
) -> Result<(Seq<Order>, Seq<Order>), CodecError> {
    match r {
        Ok((a, b)) => Ok((asks + a, bids + b)),
        Err(e) => Err(e),
    }
}

/// The asks and bids that the side blocks from `pos` to the end of `b` hold.
/// A block of another side code is read and dropped.
pub open spec fn ladders_from(b: Seq<u8>, pos: int) -> Result<(Seq<Order>, Seq<Order>), CodecError>
    decreases b.len() - pos,
{
    if pos >= b.len() || pos < 0 {
        Ok((Seq::empty(), Seq::empty()))
    } else if pos + 3 > b.len() {
        Err(CodecError::TruncatedInput)
    } else {
        let len = be_value(b.subrange(pos + 1, pos + 3)) as int;
        if len % 10 != 0 {
            Err(CodecError::InvariantViolation)
        } else if pos + 3 + len > b.len() {
            Err(CodecError::TruncatedInput)
        } else {
            let levels = levels_of(b.subrange(pos + 3, pos + 3 + len));
            let rest = ladders_from(b, pos + 3 + len);
            if b[pos] == 1 {
                prepend(levels, Seq::empty(), rest)
            } else if b[pos] == 2 {
                prepend(Seq::empty(), levels, rest)
            } else {
                rest
            }
        }
    }
}

/// What decoding an order-book message gives: its header and its ladders.
pub open spec fn decode_orderbook_result(b: Seq<u8>) -> Result<
    (HeaderFields, Seq<Order>, Seq<Order>),
    CodecError,
> {
    match parse_header(b) {
        Err(e) => Err(e),
        Ok(h) => match ladders_from(b, HEADER_LEN as int) {
            Err(e) => Err(e),
            Ok((a, bi)) => Ok((h, a, bi)),
        },
    }
}

fn ladder_fits_exec(l: &Vec<Order>) -> (r: bool)
    ensures
        r == ladder_fits(l@),
{
    if l.len() > MAX_LEVELS {
        return false;
    }
    let mut i: usize = 0;
    while i < l.len()
        invariant
            i <= l@.len(),
            forall|j: int| 0 <= j < i ==> level_fits(#[trigger] l@[j]),
        decreases l@.len() - i,
    {
        if l[i].price.mantissa >= MANTISSA5_LIMIT || l[i].quantity_base.mantissa >= MANTISSA5_LIMIT {
            return false;
        }
        assert(level_fits(l@[i as int]));
        i = i + 1;
    }
    true
}

fn push_side_block(out: &mut Vec<u8>, code: u8, l: &Vec<Order>)
    requires
        ladder_fits(l@),
    ensures
        final(out)@ == old(out)@ + side_block(code, l@),
{
    proof {
        lemma_pow256_values();
    }
    let ghost start = out@;
    out.push(code);
    push_be(out, (l.len() * 10) as u128, 2);
    let ghost mid = out@;
    let mut i: usize = 0;
    while i < l.len()
        invariant
            ladder_fits(l@),
            crate::bytes::pow256(4) == MANTISSA5_LIMIT,
            i <= l@.len(),
            out@ == mid + ladder_bytes(l@.take(i as int)),
        decreases l@.len() - i,
    {
        let o = l[i];
        assert(level_fits(l@[i as int]));
        push_num(out, o.price, 4);
        push_num(out, o.quantity_base, 4);
        assert(l@.take(i + 1).drop_last() =~= l@.take(i as int));
        assert(out@ =~= mid + ladder_bytes(l@.take(i + 1)));
        i = i + 1;
    }
    assert(l@.take(l@.len() as int) =~= l@);
    assert(out@ =~= start + side_block(code, l@));
}

/// Encodes an order book; `received` is written as the received timestamp.
/// Only the prices and base quantities of the levels are carried.
pub fn encode_orderbook(orderbook: &OrderBookMsg, received: u64) -> (r: Result<Vec<u8>, CodecError>)
    ensures
        match r {
            Ok(v) => orderbook_result(*orderbook, received) == Ok::<Seq<u8>, CodecError>(v@),
            Err(e) => orderbook_result(*orderbook, received) == Err::<Seq<u8>, CodecError>(e),
        },
{
    let mut out: Vec<u8> = Vec::new();
    let h = push_header(
        &mut out,
        orderbook.exchange.as_str(),
        orderbook.market_type,
        orderbook.msg_type,
        orderbook.pair.as_str(),
        orderbook.timestamp,
        received,
    );
    match h {
        Err(e) => {
            return Err(e);
        },
        Ok(_) => {},
    }
    if !ladder_fits_exec(&orderbook.asks) || !ladder_fits_exec(&orderbook.bids) {
        return Err(CodecError::EncodeOverflow);
    }
    let ghost hb = out@;
    push_side_block(&mut out, 1, &orderbook.asks);
    push_side_block(&mut out, 2, &orderbook.bids);
    assert(out@ =~= hb + side_block(1, orderbook.asks@) + side_block(2, orderbook.bids@));
    Ok(out)
}

fn decode_level(b: &Vec<u8>, pos: usize) -> (r: Order)
    requires
        pos + 10 <= b@.len(),
    ensures
        r == level_of(b@.subrange(pos as int, pos + 10)),
{
    let ghost s = b@.subrange(pos as int, pos + 10);
    let _n = b.len();
    let p = decode_decimal(b, pos, 5);
    let q = decode_decimal(b, pos + 5, 5);
    assert(s.subrange(0, 5) =~= b@.subrange(pos as int, pos + 5));
    assert(s.subrange(5, 10) =~= b@.subrange(pos + 5, pos + 10));
    Order {
        price: p.unwrap(),
        quantity_base: q.unwrap(),
        quantity_quote: Decimal { mantissa: 0, scale: 0 },
        quantity_contract: None,
    }
}

proof fn lemma_prepend_assoc(
    a1: Seq<Order>,
    b1: Seq<Order>,
    a2: Seq<Order>,
    b2: Seq<Order>,
    r: Result<(Seq<Order>, Seq<Order>), CodecError>,
)
    ensures
        prepend(a1, b1, prepend(a2, b2, r)) == prepend(a1 + a2, b1 + b2, r),
{
    if let Ok((x, y)) = r {
        assert(a1 + (a2 + x) =~= (a1 + a2) + x);
        assert(b1 + (b2 + y) =~= (b1 + b2) + y);
    }
}

/// Decodes an order-book message. The snapshot flag comes back set, the
/// sequence ids absent, the symbol equal to the pair and the raw text empty.
pub fn decode_orderbook(payload: &Vec<u8>) -> (r: Result<OrderBookMsg, CodecError>)
    ensures
        match decode_orderbook_result(payload@) {
            Ok((h, a, bi)) => r is Ok && book_header(r->Ok_0) == h && r->Ok_0.asks@ == a
                && r->Ok_0.bids@ == bi && r->Ok_0.symbol@ == h.3 && r->Ok_0.snapshot
                && r->Ok_0.seq_id is None && r->Ok_0.prev_seq_id is None && r->Ok_0.json@.len()
                == 0,
            Err(e) => r == Err::<OrderBookMsg, CodecError>(e),
        },
{
    let header = match decode_header(payload) {
        Ok(h) => h,
        Err(e) => {
            return Err(e);
        },
    };
    let n = payload.len();
    let mut asks: Vec<Order> = Vec::new();
    let mut bids: Vec<Order> = Vec::new();
    let mut pos: usize = HEADER_LEN;
    while pos < n
        invariant
            n == payload@.len(),
            HEADER_LEN <= pos,
            ladders_from(payload@, HEADER_LEN as int) == prepend(
                asks@,
                bids@,
                ladders_from(payload@, pos as int),
            ),
        decreases n - pos,
    {
        let ghost b = payload@;
        if n - pos < 3 {
            return Err(CodecError::TruncatedInput);
        }
        let code = payload[pos];
        let len = read_be(payload, pos + 1, 2) as usize;
        proof {
            crate::bytes::lemma_be_value_bound(b.subrange(pos + 1, pos + 3));
            lemma_pow256_values();
        }
        if len % 10 != 0 {
            return Err(CodecError::InvariantViolation);
        }
        if n - pos - 3 < len {
            return Err(CodecError::TruncatedInput);
        }
        let ghost body = b.subrange(pos + 3, pos + 3 + len);
        let ghost a0 = asks@;
        let ghost b0 = bids@;
        let count = len / 10;
        let mut k: usize = 0;
        while k < count
            invariant
                n == b.len(),
                b == payload@,
                pos + 3 + len <= n,
                count == len / 10,
                len % 10 == 0,
                body == b.subrange(pos + 3, pos + 3 + len),
                k <= count,
                code == 1 ==> asks@ == a0 + levels_of(body).take(k as int) && bids@ == b0,
                code == 2 ==> bids@ == b0 + levels_of(body).take(k as int) && asks@ == a0,
                code != 1 && code != 2 ==> asks@ == a0 && bids@ == b0,
            decreases count - k,
        {
            let o = decode_level(payload, pos + 3 + 10 * k);
            assert(body.subrange(10 * k, 10 * k + 10) =~= b.subrange(
                pos + 3 + 10 * k,
                pos + 3 + 10 * k + 10,
            ));
            assert(o == levels_of(body)[k as int]);
            if code == 1 {
                asks.push(o);
                assert(asks@ =~= a0 + levels_of(body).take(k + 1));
            } else if code == 2 {
                bids.push(o);
                assert(bids@ =~= b0 + levels_of(body).take(k + 1));
            }
            k = k + 1;
        }
        assert(levels_of(body).take(count as int) =~= levels_of(body));
        proof {
            let rest = ladders_from(b, pos + 3 + len);
            assert(ladders_from(b, pos as int) == if code == 1 {
                prepend(levels_of(body), Seq::empty(), rest)
            } else if code == 2 {
                prepend(Seq::empty(), levels_of(body), rest)
            } else {
                rest
            });
            if code == 1 {
                lemma_prepend_assoc(a0, b0, levels_of(body), Seq::empty(), rest);
                assert(b0 + Seq::<Order>::empty() =~= b0);
            } else if code == 2 {
                lemma_prepend_assoc(a0, b0, Seq::empty(), levels_of(body), rest);
                assert(a0 + Seq::<Order>::empty() =~= a0);
            }
        }
        pos = pos + 3 + len;
    }
    proof {
        assert(asks@ + Seq::<Order>::empty() =~= asks@);
        assert(bids@ + Seq::<Order>::empty() =~= bids@);
    }
    let symbol = header.pair.clone();
    Ok(OrderBookMsg {
        exchange: header.exchange,
        market_type: header.market_type,
        symbol,
        pair: header.pair,
        msg_type: header.msg_type,
        timestamp: header.timestamp,
        snapshot: true,
        asks,
        bids,
        seq_id: None,
        prev_seq_id: None,
        json: String::new(),
    })
}

} // verus!
verus! {

/// What the wire keeps of a level: its price and base quantity.
pub open spec fn transmitted(o: Order) -> Order {
    Order {
        price: o.price,
        quantity_base: o.quantity_base,
        quantity_quote: zero(),
        quantity_contract: None,
    }
}

/// What the wire keeps of a ladder.
pub open spec fn transmitted_ladder(l: Seq<Order>) -> Seq<Order> {
    l.map_values(|o: Order| transmitted(o))
}

proof fn lemma_ladder_bytes(l: Seq<Order>)
    ensures
        ladder_bytes(l).len() == 10 * l.len(),
        forall|i: int|
            0 <= i < l.len() ==> #[trigger] ladder_bytes(l).subrange(10 * i, 10 * i + 10)
                == level_bytes(l[i]),
    decreases l.len(),
{
    if l.len() > 0 {
        let p = l.drop_last();
        lemma_ladder_bytes(p);
        lemma_be_bytes_len(l.last().price.mantissa as nat, 4);
        lemma_be_bytes_len(l.last().quantity_base.mantissa as nat, 4);
        let lb = ladder_bytes(l);
        assert forall|i: int| 0 <= i < l.len() implies #[trigger] lb.subrange(10 * i, 10 * i + 10)
            == level_bytes(l[i]) by {
            if i < l.len() - 1 {
                assert(lb.subrange(10 * i, 10 * i + 10) =~= ladder_bytes(p).subrange(
                    10 * i,
                    10 * i + 10,
                ));
                assert(p[i] == l[i]);
            } else {
                assert(lb.subrange(10 * i, 10 * i + 10) =~= level_bytes(l.last()));
            }
        }
    }
}

proof fn lemma_levels_of_ladder(l: Seq<Order>)
    requires
        ladder_fits(l),
    ensures
        levels_of(ladder_bytes(l)) == transmitted_ladder(l),
{
    lemma_ladder_bytes(l);
    lemma_pow256_values();
    let lb = ladder_bytes(l);
    assert forall|i: int| 0 <= i < l.len() implies #[trigger] levels_of(lb)[i]
        == transmitted_ladder(l)[i] by {
        let o = l[i];
        assert(level_fits(o));
        let s = lb.subrange(10 * i, 10 * i + 10);
        assert(s == level_bytes(o));
        lemma_num_round_trip(o.price, 4);
        lemma_num_round_trip(o.quantity_base, 4);
        assert(s.subrange(0, 5) =~= num_bytes(o.price, 4));
        assert(s.subrange(5, 10) =~= num_bytes(o.quantity_base, 4));
    }
    assert(levels_of(lb) =~= transmitted_ladder(l));
}

proof fn lemma_block_parse(b: Seq<u8>, pos: int, code: u8, l: Seq<Order>)
    requires
        0 <= pos,
        pos + 3 + 10 * l.len() <= b.len(),
        b.subrange(pos, pos + 3 + 10 * l.len()) == side_block(code, l),
        ladder_fits(l),
        code == 1 || code == 2,
    ensures
        ladders_from(b, pos) == if code == 1 {
            prepend(transmitted_ladder(l), Seq::empty(), ladders_from(b, pos + 3 + 10 * l.len()))
        } else {
            prepend(Seq::empty(), transmitted_ladder(l), ladders_from(b, pos + 3 + 10 * l.len()))
        },
{
    lemma_pow256_values();
    lemma_ladder_bytes(l);
    lemma_be_bytes_len(10 * l.len(), 2);
    let blk = side_block(code, l);
    assert(b[pos] == blk[0]);
    assert(b.subrange(pos + 1, pos + 3) =~= blk.subrange(1, 3));
    assert(blk.subrange(1, 3) =~= be_bytes(10 * l.len(), 2));
    lemma_be_round_trip(10 * l.len(), 2);
    assert(b.subrange(pos + 3, pos + 3 + 10 * l.len()) =~= blk.subrange(3, 3 + 10 * l.len() as int));
    assert(blk.subrange(3, 3 + 10 * l.len() as int) =~= ladder_bytes(l));
    lemma_levels_of_ladder(l);
}

/// Order-book round trip: decoding the bytes of an order book that encodes
/// gives back the prices and base quantities of its asks and bids, in order;
/// and its header too, when the header fields are in the tables.
pub proof fn orderbook_round_trip(ob: OrderBookMsg, received: u64)
    requires
        orderbook_result(ob, received) is Ok,
    ensures
        ({
            let d = decode_orderbook_result(orderbook_result(ob, received)->Ok_0);
            &&& d is Ok
            &&& d->Ok_0.1 == transmitted_ladder(ob.asks@)
            &&& d->Ok_0.2 == transmitted_ladder(ob.bids@)
            &&& header_in_tables(book_header(ob)) ==> d->Ok_0.0 == book_header(ob)
        }),
{
    let h = header_result(book_header(ob), received)->Ok_0;
    let a = ob.asks@;
    let bi = ob.bids@;
    let ba = side_block(1, a);
    let bb = side_block(2, bi);
    let b = h + ba + bb;
    crate::bytes::lemma_be_bytes_len(ob.timestamp as nat, 6);
    crate::bytes::lemma_be_bytes_len(received as nat, 6);
    crate::bytes::lemma_be_bytes_len(crate::tables::pair_code(ob.pair@)->Some_0 as nat, 2);
    assert(h.len() == HEADER_LEN);
    if header_in_tables(book_header(ob)) {
        header_round_trip(book_header(ob), received, ba + bb);
        assert(h + ba + bb =~= h + (ba + bb));
    }
    lemma_ladder_bytes(a);
    lemma_ladder_bytes(bi);
    lemma_be_bytes_len(10 * a.len(), 2);
    lemma_be_bytes_len(10 * bi.len(), 2);
    let asks_at = HEADER_LEN as int;
    let bids_at = asks_at + 3 + 10 * a.len();
    let end_at = bids_at + 3 + 10 * bi.len();
    assert(b.subrange(asks_at, bids_at) =~= ba);
    assert(b.subrange(bids_at, end_at) =~= bb);
    lemma_block_parse(b, asks_at, 1, a);
    lemma_block_parse(b, bids_at, 2, bi);
    assert(ladders_from(b, end_at) == Ok::<(Seq<Order>, Seq<Order>), CodecError>(
        (Seq::empty(), Seq::empty()),
    ));
    assert(transmitted_ladder(a) + Seq::<Order>::empty() =~= transmitted_ladder(a));
    assert(transmitted_ladder(bi) + Seq::<Order>::empty() =~= transmitted_ladder(bi));
    assert(Seq::<Order>::empty() + transmitted_ladder(bi) =~= transmitted_ladder(bi));
    assert(transmitted_ladder(a) + Seq::<Order>::empty() =~= transmitted_ladder(a));
}

/// Side-length framing: in an encoded order book, the length field of the
/// asks block reads `10 ×` the number of asks, and that of the bids block,
/// which follows the asks, `10 ×` the number of bids.
pub proof fn side_length_framing(ob: OrderBookMsg, received: u64)
    requires
        orderbook_result(ob, received) is Ok,
    ensures
        ({
            let b = orderbook_result(ob, received)->Ok_0;
            let bids_at = HEADER_LEN + 3 + 10 * ob.asks@.len();
            &&& b.len() == HEADER_LEN + 6 + 10 * ob.asks@.len() + 10 * ob.bids@.len()
            &&& b[HEADER_LEN as int] == 1
            &&& be_value(b.subrange(HEADER_LEN + 1, HEADER_LEN + 3)) == 10 * ob.asks@.len()
            &&& b[bids_at] == 2
            &&& be_value(b.subrange(bids_at + 1, bids_at + 3)) == 10 * ob.bids@.len()
        }),
{
    lemma_pow256_values();
    let h = header_result(book_header(ob), received)->Ok_0;
    let a = ob.asks@;
    let bi = ob.bids@;
    let ba = side_block(1, a);
    let bb = side_block(2, bi);
    let b = h + ba + bb;
    crate::bytes::lemma_be_bytes_len(ob.timestamp as nat, 6);
    crate::bytes::lemma_be_bytes_len(received as nat, 6);
    crate::bytes::lemma_be_bytes_len(crate::tables::pair_code(ob.pair@)->Some_0 as nat, 2);
    assert(h.len() == HEADER_LEN);
    lemma_ladder_bytes(a);
    lemma_ladder_bytes(bi);
    lemma_be_bytes_len(10 * a.len(), 2);
    lemma_be_bytes_len(10 * bi.len(), 2);
    lemma_be_round_trip(10 * a.len(), 2);
    lemma_be_round_trip(10 * bi.len(), 2);
    let bids_at = HEADER_LEN + 3 + 10 * a.len();
    assert(b.subrange(HEADER_LEN + 1, HEADER_LEN + 3) =~= be_bytes(10 * a.len(), 2));
    assert(b.subrange(bids_at + 1, bids_at + 3) =~= be_bytes(10 * bi.len(), 2));
    assert(b[HEADER_LEN as int] == ba[0]);
    assert(b[bids_at] == bb[0]);
}

} // verus!
