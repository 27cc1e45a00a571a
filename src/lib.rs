//! Compact binary codec for market-data messages (order books, trades,
//! best-bid-offer quotes, klines) and a delta engine for order-book ladders,
//! with their contracts proved.

pub mod book;
pub mod bytes;
pub mod compare;
pub mod decimal;
pub mod diff;
pub mod error;
pub mod header;
pub mod hex;
pub mod messages;
pub mod quotes;
pub mod tables;
pub mod text;

pub use book::{decode_orderbook, encode_orderbook};
pub use decimal::{decode_decimal, encode_decimal10, encode_decimal5, Decimal};
pub use diff::{generated_diffs, get_orders, restore_diffs, restore_orders};
pub use error::CodecError;
pub use hex::{hex_to_byte, long_to_hex};
pub use messages::{BboMsg, KlineMsg, Order, OrderBookMsg, TradeMsg};
pub use quotes::{decode_bbo, decode_kline, decode_trade, encode_bbo, encode_kline, encode_trade};
pub use tables::{MarketType, MessageType, OrderType, TradeSide};
pub use text::{encode_num_to_10_bytes, encode_num_to_bytes, parse_decimal};
