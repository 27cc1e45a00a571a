//! The messages that the codec carries.

use vstd::prelude::*;

use crate::decimal::Decimal;
use crate::tables::{MarketType, MessageType, TradeSide};

verus! {

/// A price level.
#[derive(Clone, Copy, Debug, PartialEq, Eq, Structural)]
pub struct Order {
    pub price: Decimal,
    pub quantity_base: Decimal,
    pub quantity_quote: Decimal,
    pub quantity_contract: Option<Decimal>,
}

/// A level-2 order book: asks in ascending price order, bids in descending.
#[derive(Clone, Debug)]
pub struct OrderBookMsg {
    pub exchange: String,
    pub market_type: MarketType,
    pub symbol: String,
    pub pair: String,
    pub msg_type: MessageType,
    pub timestamp: i64,
    pub snapshot: bool,
    pub asks: Vec<Order>,
    pub bids: Vec<Order>,
    pub seq_id: Option<u64>,
    pub prev_seq_id: Option<u64>,
    pub json: String,
}

/// A trade.
#[derive(Clone, Debug)]
pub struct TradeMsg {
    pub exchange: String,
    pub market_type: MarketType,
    pub msg_type: MessageType,
    pub pair: String,
    pub symbol: String,
    pub timestamp: i64,
    pub side: TradeSide,
    pub price: Decimal,
    pub quantity_base: Decimal,
    pub quantity_quote: Decimal,
    pub quantity_contract: Option<Decimal>,
    pub trade_id: String,
    pub json: String,
}

/// A best bid and offer quote.
#[derive(Clone, Debug)]
pub struct BboMsg {
    pub exchange: String,
    pub market_type: MarketType,
    pub msg_type: MessageType,
    pub pair: String,
    pub symbol: String,
    pub timestamp: i64,
    pub ask_price: Decimal,
    pub ask_quantity_base: Decimal,
    pub ask_quantity_quote: Decimal,
    pub ask_quantity_contract: Option<Decimal>,
    pub bid_price: Decimal,
    pub bid_quantity_base: Decimal,
    pub bid_quantity_quote: Decimal,
    pub bid_quantity_contract: Option<Decimal>,
    pub id: Option<u64>,
    pub json: String,
}

/// A candlestick over one period.
#[derive(Clone, Debug)]
pub struct KlineMsg {
    pub exchange: String,
    pub market_type: MarketType,
    pub msg_type: MessageType,
    pub pair: String,
    pub symbol: String,
    pub timestamp: i64,
    pub open: Decimal,
    pub high: Decimal,
    pub low: Decimal,
    pub close: Decimal,
    pub volume: Decimal,
    pub period: String,
    pub quote_volume: Option<Decimal>,
    pub json: String,
}

pub open spec fn zero() -> Decimal {
    Decimal { mantissa: 0, scale: 0 }
}

} // verus!
