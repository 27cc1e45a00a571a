use crypto_market_integration::{
    decode_bbo, decode_kline, decode_orderbook, decode_trade, encode_bbo, encode_kline,
    encode_orderbook, encode_trade, BboMsg, CodecError, Decimal, KlineMsg, MarketType,
    MessageType, Order, OrderBookMsg, TradeMsg, TradeSide,
};

fn dec(mantissa: u128, scale: u8) -> Decimal {
    Decimal { mantissa, scale }
}

fn level(price: Decimal, quantity_base: Decimal) -> Order {
    Order { price, quantity_base, quantity_quote: dec(0, 0), quantity_contract: None }
}

fn book(asks: Vec<Order>, bids: Vec<Order>) -> OrderBookMsg {
    OrderBookMsg {
        exchange: "binance".to_string(),
        market_type: MarketType::Spot,
        symbol: "BTCUSDT".to_string(),
        pair: "BTC/USDT".to_string(),
        msg_type: MessageType::L2Event,
        timestamp: 1_700_000_000_000,
        snapshot: false,
        asks,
        bids,
        seq_id: Some(7),
        prev_seq_id: Some(6),
        json: "{}".to_string(),
    }
}

fn trade() -> TradeMsg {
    TradeMsg {
        exchange: "okx".to_string(),
        market_type: MarketType::LinearSwap,
        msg_type: MessageType::Trade,
        pair: "BTC/USD".to_string(),
        symbol: "BTC-USD-SWAP".to_string(),
        timestamp: 1_650_000_000_123,
        side: TradeSide::Buy,
        price: dec(4012345, 2),
        quantity_base: dec(3, 1),
        quantity_quote: dec(1203, 1),
        quantity_contract: Some(dec(3, 0)),
        trade_id: "42".to_string(),
        json: "{}".to_string(),
    }
}

fn bbo() -> BboMsg {
    BboMsg {
        exchange: "huobi".to_string(),
        market_type: MarketType::InverseFuture,
        msg_type: MessageType::BBO,
        pair: "USDT/USD".to_string(),
        symbol: "usdtusd".to_string(),
        timestamp: 1,
        ask_price: dec(10001, 4),
        ask_quantity_base: dec(500, 0),
        ask_quantity_quote: dec(0, 0),
        ask_quantity_contract: None,
        bid_price: dec(9999, 4),
        bid_quantity_base: dec(250, 1),
        bid_quantity_quote: dec(0, 0),
        bid_quantity_contract: None,
        id: Some(3),
        json: String::new(),
    }
}

fn kline() -> KlineMsg {
    KlineMsg {
        exchange: "kucoin".to_string(),
        market_type: MarketType::QuantoSwap,
        msg_type: MessageType::Candlestick,
        pair: "BTC/USDT".to_string(),
        symbol: "XBTUSDTM".to_string(),
        timestamp: (1i64 << 48) - 1,
        open: dec(100, 0),
        high: dec(1105, 1),
        low: dec(95, 0),
        close: dec(10725, 2),
        volume: dec((1u128 << 72) - 1, 6),
        period: "30m".to_string(),
        quote_volume: Some(dec(1, 0)),
        json: String::new(),
    }
}

#[test]
fn header_scenario() {
    let b = encode_orderbook(&book(vec![], vec![]), 0x0102_0304_0506).unwrap();
    assert_eq!(&b[0..6], &[0x01, 0x8B, 0xCF, 0xE5, 0x68, 0x00]);
    assert_eq!(&b[6..12], &[0x01, 0x02, 0x03, 0x04, 0x05, 0x06]);
    assert_eq!(&b[12..17], &[0x03, 0x01, 0x05, 0x00, 0x01]);
}

#[test]
fn orderbook_scenario_round_trip() {
    let asks = vec![level(dec(1000, 1), dec(15, 1))];
    let bids = vec![level(dec(995, 1), dec(20, 1))];
    let b = encode_orderbook(&book(asks.clone(), bids.clone()), 5).unwrap();
    assert_eq!(b.len(), 17 + 2 * (3 + 10));
    let ob = decode_orderbook(&b).unwrap();
    assert_eq!(ob.asks, asks);
    assert_eq!(ob.bids, bids);
    assert_eq!(ob.exchange, "binance");
    assert_eq!(ob.pair, "BTC/USDT");
    assert_eq!(ob.symbol, "BTC/USDT");
    assert_eq!(ob.market_type, MarketType::Spot);
    assert_eq!(ob.msg_type, MessageType::L2Event);
    assert_eq!(ob.timestamp, 1_700_000_000_000);
    assert!(ob.snapshot);
    assert_eq!(ob.seq_id, None);
    assert_eq!(ob.prev_seq_id, None);
}

#[test]
fn orderbook_round_trip_drops_quote_quantities() {
    let asks = vec![
        Order { price: dec(100, 0), quantity_base: dec(1, 0), quantity_quote: dec(100, 0), quantity_contract: Some(dec(1, 0)) },
        Order { price: dec(1015, 1), quantity_base: dec(2, 0), quantity_quote: dec(203, 0), quantity_contract: None },
    ];
    let bids = vec![
        level(dec(99, 0), dec(3, 0)),
        level(dec(98, 0), dec(4, 0)),
        level(dec(9750, 2), dec(5, 0)),
    ];
    let b = encode_orderbook(&book(asks.clone(), bids.clone()), 0).unwrap();
    let ob = decode_orderbook(&b).unwrap();
    assert_eq!(ob.asks.len(), 2);
    for (got, want) in ob.asks.iter().zip(asks.iter()) {
        assert_eq!(got.price, want.price);
        assert_eq!(got.quantity_base, want.quantity_base);
        assert_eq!(got.quantity_quote, dec(0, 0));
        assert_eq!(got.quantity_contract, None);
    }
    assert_eq!(ob.bids, bids);
}

#[test]
fn side_length_fields() {
    let asks = vec![level(dec(1, 0), dec(1, 0)), level(dec(2, 0), dec(1, 0))];
    let bids = vec![level(dec(1, 1), dec(1, 0))];
    let b = encode_orderbook(&book(asks, bids), 0).unwrap();
    assert_eq!(b[17], 1);
    assert_eq!(&b[18..20], &[0, 20]);
    assert_eq!(b[40], 2);
    assert_eq!(&b[41..43], &[0, 10]);
    assert_eq!(b.len(), 53);
}

#[test]
fn too_many_levels() {
    let asks: Vec<Order> = (0..6554u128).map(|i| level(dec(i + 1, 0), dec(1, 0))).collect();
    assert_eq!(encode_orderbook(&book(asks, vec![]), 0).unwrap_err(), CodecError::EncodeOverflow);
    let asks: Vec<Order> = (0..6553u128).map(|i| level(dec(i + 1, 0), dec(1, 0))).collect();
    let b = encode_orderbook(&book(asks, vec![]), 0).unwrap();
    assert_eq!(&b[18..20], &[0xFF, 0xFA]);
    assert_eq!(decode_orderbook(&b).unwrap().asks.len(), 6553);
}

#[test]
fn timestamp_first_byte() {
    let mut ob = book(vec![], vec![]);
    ob.timestamp = 0xAB_CDEF_0123_45;
    let b = encode_orderbook(&ob, 0).unwrap();
    assert_eq!(b[0], ((ob.timestamp >> 40) & 0xFF) as u8);
    assert_eq!(&b[0..6], &[0xAB, 0xCD, 0xEF, 0x01, 0x23, 0x45]);
}

#[test]
fn unknown_exchange_or_pair() {
    let mut ob = book(vec![], vec![]);
    ob.exchange = "bitmex".to_string();
    assert_eq!(encode_orderbook(&ob, 0).unwrap_err(), CodecError::UnknownEnumString);
    let mut t = trade();
    t.pair = "ETH/USDT".to_string();
    assert_eq!(encode_trade(&t, 0).unwrap_err(), CodecError::UnknownEnumString);
    let mut k = kline();
    k.period = "1d".to_string();
    assert_eq!(encode_kline(&k, 0).unwrap_err(), CodecError::UnknownEnumString);
}

#[test]
fn timestamp_out_of_range() {
    let mut ob = book(vec![], vec![]);
    ob.timestamp = 1i64 << 48;
    assert_eq!(encode_orderbook(&ob, 0).unwrap_err(), CodecError::EncodeOverflow);
    ob.timestamp = -1;
    assert_eq!(encode_orderbook(&ob, 0).unwrap_err(), CodecError::EncodeOverflow);
}

#[test]
fn level_overflow() {
    let asks = vec![level(dec(1u128 << 32, 0), dec(1, 0))];
    assert_eq!(encode_orderbook(&book(asks, vec![]), 0).unwrap_err(), CodecError::EncodeOverflow);
    let mut q = bbo();
    q.bid_quantity_base = dec(1u128 << 40, 2);
    assert_eq!(encode_bbo(&q, 0).unwrap_err(), CodecError::EncodeOverflow);
}

#[test]
fn truncated_inputs() {
    assert_eq!(decode_orderbook(&vec![0; 16]).unwrap_err(), CodecError::TruncatedInput);
    let mut b = encode_orderbook(&book(vec![level(dec(1, 0), dec(1, 0))], vec![]), 0).unwrap();
    b.pop();
    b.pop();
    b.pop();
    b.pop();
    b.pop();
    b.pop();
    b.pop();
    b.pop();
    b.pop();
    b.pop();
    b.pop();
    b.pop();
    assert_eq!(decode_orderbook(&b).unwrap_err(), CodecError::TruncatedInput);
    let t = encode_trade(&trade(), 0).unwrap();
    assert_eq!(decode_trade(&t[..27].to_vec()).unwrap_err(), CodecError::TruncatedInput);
    let q = encode_bbo(&bbo(), 0).unwrap();
    assert_eq!(decode_bbo(&q[..36].to_vec()).unwrap_err(), CodecError::TruncatedInput);
    let k = encode_kline(&kline(), 0).unwrap();
    assert_eq!(decode_kline(&k[..47].to_vec()).unwrap_err(), CodecError::TruncatedInput);
}

#[test]
fn block_length_not_multiple_of_ten() {
    let mut b = encode_orderbook(&book(vec![level(dec(1, 0), dec(1, 0))], vec![]), 0).unwrap();
    b[19] = 9;
    assert_eq!(decode_orderbook(&b).unwrap_err(), CodecError::InvariantViolation);
}

#[test]
fn unknown_codes_decode_to_sentinels() {
    let mut b = encode_orderbook(&book(vec![], vec![]), 0).unwrap();
    b[12] = 99;
    b[13] = 42;
    b[14] = 200;
    b[15] = 0;
    b[16] = 9;
    let ob = decode_orderbook(&b).unwrap();
    assert_eq!(ob.exchange, "unknow");
    assert_eq!(ob.market_type, MarketType::Unknown);
    assert_eq!(ob.msg_type, MessageType::Other);
    assert_eq!(ob.pair, "UNKNOWN");
}

#[test]
fn unknown_side_block_is_skipped() {
    let mut b = encode_orderbook(&book(vec![level(dec(1, 0), dec(1, 0))], vec![level(dec(2, 0), dec(1, 0))]), 0).unwrap();
    b[17] = 7;
    let ob = decode_orderbook(&b).unwrap();
    assert!(ob.asks.is_empty());
    assert_eq!(ob.bids.len(), 1);
}

#[test]
fn market_types_without_own_code() {
    let mut ob = book(vec![], vec![]);
    ob.market_type = MarketType::AmericanOption;
    let b = encode_orderbook(&ob, 0).unwrap();
    assert_eq!(b[13], 0);
    assert_eq!(decode_orderbook(&b).unwrap().market_type, MarketType::Unknown);
    ob.market_type = MarketType::QuantoFuture;
    let b = encode_orderbook(&ob, 0).unwrap();
    assert_eq!(b[13], 7);
    assert_eq!(decode_orderbook(&b).unwrap().market_type, MarketType::QuantoFuture);
    ob.msg_type = MessageType::TakerVolume;
    let b = encode_orderbook(&ob, 0).unwrap();
    assert_eq!(b[14], 12);
    assert_eq!(decode_orderbook(&b).unwrap().msg_type, MessageType::LongShortRatio);
}

#[test]
fn trade_round_trip_value() {
    let t = trade();
    let b = encode_trade(&t, 99).unwrap();
    assert_eq!(b.len(), 28);
    assert_eq!(b[17], 1);
    let d = decode_trade(&b).unwrap();
    assert_eq!(d.exchange, "okx");
    assert_eq!(d.market_type, MarketType::LinearSwap);
    assert_eq!(d.msg_type, MessageType::Trade);
    assert_eq!(d.pair, "BTC/USD");
    assert_eq!(d.symbol, "BTC/USD");
    assert_eq!(d.timestamp, t.timestamp);
    assert_eq!(d.side, TradeSide::Buy);
    assert_eq!(d.price, t.price);
    assert_eq!(d.quantity_base, t.quantity_base);
    assert_eq!(d.quantity_quote, dec(0, 0));
    assert_eq!(d.trade_id, "");
}

#[test]
fn sell_trade_round_trip() {
    let mut t = trade();
    t.side = TradeSide::Sell;
    let b = encode_trade(&t, 0).unwrap();
    assert_eq!(b[17], 2);
    assert_eq!(decode_trade(&b).unwrap().side, TradeSide::Sell);
}

#[test]
fn bbo_round_trip_value() {
    let q = bbo();
    let b = encode_bbo(&q, 0).unwrap();
    assert_eq!(b.len(), 37);
    let d = decode_bbo(&b).unwrap();
    assert_eq!(d.exchange, "huobi");
    assert_eq!(d.pair, "USDT/USD");
    assert_eq!(d.market_type, MarketType::InverseFuture);
    assert_eq!(d.msg_type, MessageType::BBO);
    assert_eq!(d.timestamp, 1);
    assert_eq!(d.ask_price, q.ask_price);
    assert_eq!(d.ask_quantity_base, q.ask_quantity_base);
    assert_eq!(d.bid_price, q.bid_price);
    assert_eq!(d.bid_quantity_base, q.bid_quantity_base);
    assert_eq!(d.id, None);
}

#[test]
fn kline_round_trip_value() {
    let k = kline();
    let b = encode_kline(&k, 0).unwrap();
    assert_eq!(b.len(), 48);
    assert_eq!(b[17], 3);
    let d = decode_kline(&b).unwrap();
    assert_eq!(d.exchange, "kucoin");
    assert_eq!(d.market_type, MarketType::QuantoSwap);
    assert_eq!(d.msg_type, MessageType::Candlestick);
    assert_eq!(d.timestamp, (1i64 << 48) - 1);
    assert_eq!(d.period, "30m");
    assert_eq!(d.open, k.open);
    assert_eq!(d.high, k.high);
    assert_eq!(d.low, k.low);
    assert_eq!(d.close, k.close);
    assert_eq!(d.volume, k.volume);
    assert_eq!(d.quote_volume, None);
}
