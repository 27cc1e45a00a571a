//! The enumerations of the wire format and their one-byte (or two-byte) codes.

use vstd::prelude::*;

verus! {

/// Kind of market a message comes from.
#[derive(Clone, Copy, Debug, PartialEq, Eq, Structural)]
pub enum MarketType {
    Unknown,
    Spot,
    LinearFuture,
    InverseFuture,
    LinearSwap,
    InverseSwap,
    AmericanOption,
    EuropeanOption,
    QuantoFuture,
    QuantoSwap,
    Move,
    BVOL,
}

/// Kind of message.
#[derive(Clone, Copy, Debug, PartialEq, Eq, Structural)]
pub enum MessageType {
    Other,
    Trade,
    L2Event,
    L2Snapshot,
    L2TopK,
    L3Event,
    L3Snapshot,
    BBO,
    Ticker,
    Candlestick,
    FundingRate,
    OpenInterest,
    LongShortRatio,
    TakerVolume,
}

/// Which side took liquidity in a trade.
#[derive(Clone, Copy, Debug, PartialEq, Eq, Structural)]
pub enum TradeSide {
    Buy,
    Sell,
}

/// A side of an order book: asks are kept in ascending price order, bids in
/// descending order.
#[derive(Clone, Copy, Debug, PartialEq, Eq, Structural)]
pub enum OrderType {
    Ask,
    Bid,
}

pub open spec fn market_type_code(m: MarketType) -> u8 {
    match m {
        MarketType::Unknown => 0,
        MarketType::Spot => 1,
        MarketType::LinearFuture => 2,
        MarketType::InverseFuture => 3,
        MarketType::LinearSwap => 4,
        MarketType::InverseSwap => 5,
        MarketType::EuropeanOption => 6,
        MarketType::QuantoFuture => 7,
        MarketType::QuantoSwap => 8,
        MarketType::Move => 0,
        MarketType::BVOL => 0,
        MarketType::AmericanOption => 0,
    }
}

pub open spec fn market_type_of(c: u8) -> MarketType {
    if c == 1 {
        MarketType::Spot
    } else if c == 2 {
        MarketType::LinearFuture
    } else if c == 3 {
        MarketType::InverseFuture
    } else if c == 4 {
        MarketType::LinearSwap
    } else if c == 5 {
        MarketType::InverseSwap
    } else if c == 6 {
        MarketType::EuropeanOption
    } else if c == 7 {
        MarketType::QuantoFuture
    } else if c == 8 {
        MarketType::QuantoSwap
    } else {
        MarketType::Unknown
    }
}

/// The market types that the code table lists, each under its own code.
pub open spec fn market_type_in_table(m: MarketType) -> bool {
    !(m is Move || m is BVOL || m is AmericanOption)
}

pub open spec fn message_type_code(m: MessageType) -> u8 {
    match m {
        MessageType::Other => 0,
        MessageType::Trade => 1,
        MessageType::BBO => 2,
        MessageType::L2TopK => 3,
        MessageType::L2Snapshot => 4,
        MessageType::L2Event => 5,
        MessageType::L3Snapshot => 6,
        MessageType::L3Event => 7,
        MessageType::Ticker => 8,
        MessageType::Candlestick => 9,
        MessageType::OpenInterest => 10,
        MessageType::FundingRate => 11,
        MessageType::LongShortRatio => 12,
        MessageType::TakerVolume => 12,
    }
}

pub open spec fn message_type_of(c: u8) -> MessageType {
    if c == 1 {
        MessageType::Trade
    } else if c == 2 {
        MessageType::BBO
    } else if c == 3 {
        MessageType::L2TopK
    } else if c == 4 {
        MessageType::L2Snapshot
    } else if c == 5 {
        MessageType::L2Event
    } else if c == 6 {
        MessageType::L3Snapshot
    } else if c == 7 {
        MessageType::L3Event
    } else if c == 8 {
        MessageType::Ticker
    } else if c == 9 {
        MessageType::Candlestick
    } else if c == 10 {
        MessageType::OpenInterest
    } else if c == 11 {
        MessageType::FundingRate
    } else if c == 12 {
        MessageType::LongShortRatio
    } else {
        MessageType::Other
    }
}

pub open spec fn exchange_code(s: Seq<char>) -> Option<u8> {
    if s == "crypto"@ {
        Some(1u8)
    } else if s == "ftx"@ {
        Some(2u8)
    } else if s == "binance"@ {
        Some(3u8)
    } else if s == "huobi"@ {
        Some(8u8)
    } else if s == "kucoin"@ {
        Some(10u8)
    } else if s == "okx"@ {
        Some(11u8)
    } else {
        None
    }
}

pub open spec fn exchange_name(c: u8) -> Seq<char> {
    if c == 1 {
        "crypto"@
    } else if c == 2 {
        "ftx"@
    } else if c == 3 {
        "binance"@
    } else if c == 8 {
        "huobi"@
    } else if c == 10 {
        "kucoin"@
    } else if c == 11 {
        "okx"@
    } else {
        "unknow"@
    }
}

pub open spec fn pair_code(s: Seq<char>) -> Option<u16> {
    if s == "BTC/USDT"@ {
        Some(1u16)
    } else if s == "BTC/USD"@ {
        Some(2u16)
    } else if s == "USDT/USD"@ {
        Some(3u16)
    } else {
        None
    }
}

pub open spec fn pair_name(c: u16) -> Seq<char> {
    if c == 1 {
        "BTC/USDT"@
    } else if c == 2 {
        "BTC/USD"@
    } else if c == 3 {
        "USDT/USD"@
    } else {
        "UNKNOWN"@
    }
}

pub open spec fn period_code(s: Seq<char>) -> Option<u8> {
    if s == "1m"@ {
        Some(1u8)
    } else if s == "5m"@ {
        Some(2u8)
    } else if s == "30m"@ {
        Some(3u8)
    } else if s == "1h"@ {
        Some(4u8)
    } else {
        None
    }
}

pub open spec fn period_name(c: u8) -> Seq<char> {
    if c == 1 {
        "1m"@
    } else if c == 2 {
        "5m"@
    } else if c == 3 {
        "30m"@
    } else if c == 4 {
        "1h"@
    } else {
        "unknow"@
    }
}

pub open spec fn trade_side_code(s: TradeSide) -> u8 {
    match s {
        TradeSide::Buy => 1,
        TradeSide::Sell => 2,
    }
}

pub open spec fn trade_side_of(c: u8) -> TradeSide {
    if c == 1 {
        TradeSide::Buy
    } else {
        TradeSide::Sell
    }
}

pub open spec fn order_type_code(t: OrderType) -> u8 {
    match t {
        OrderType::Ask => 1,
        OrderType::Bid => 2,
    }
}

/// Whether two texts hold the same characters.
pub fn same_text(a: &str, b: &str) -> (r: bool)
    ensures
        r == (a@ == b@),
{
    let n = a.unicode_len();
    if n != b.unicode_len() {
        return false;
    }
    let mut i: usize = 0;
    while i < n
        invariant
            n == a@.len(),
            n == b@.len(),
            i <= n,
            forall|j: int| 0 <= j < i ==> a@[j] == b@[j],
        decreases n - i,
    {
        if a.get_char(i) != b.get_char(i) {
            return false;
        }
        i = i + 1;
    }
    assert(a@ =~= b@);
    true
}

pub fn market_type_to_code(m: MarketType) -> (r: u8)
    ensures
        r == market_type_code(m),
{
    match m {
        MarketType::Unknown => 0,
        MarketType::Spot => 1,
        MarketType::LinearFuture => 2,
        MarketType::InverseFuture => 3,
        MarketType::LinearSwap => 4,
        MarketType::InverseSwap => 5,
        MarketType::EuropeanOption => 6,
        MarketType::QuantoFuture => 7,
        MarketType::QuantoSwap => 8,
        MarketType::Move => 0,
        MarketType::BVOL => 0,
        MarketType::AmericanOption => 0,
    }
}

pub fn market_type_from_code(c: u8) -> (r: MarketType)
    ensures
        r == market_type_of(c),
{
    match c {
        1 => MarketType::Spot,
        2 => MarketType::LinearFuture,
        3 => MarketType::InverseFuture,
        4 => MarketType::LinearSwap,
        5 => MarketType::InverseSwap,
        6 => MarketType::EuropeanOption,
        7 => MarketType::QuantoFuture,
        8 => MarketType::QuantoSwap,
        _ => MarketType::Unknown,
    }
}

pub fn message_type_to_code(m: MessageType) -> (r: u8)
    ensures
        r == message_type_code(m),
{
    match m {
        MessageType::Other => 0,
        MessageType::Trade => 1,
        MessageType::BBO => 2,
        MessageType::L2TopK => 3,
        MessageType::L2Snapshot => 4,
        MessageType::L2Event => 5,
        MessageType::L3Snapshot => 6,
        MessageType::L3Event => 7,
        MessageType::Ticker => 8,
        MessageType::Candlestick => 9,
        MessageType::OpenInterest => 10,
        MessageType::FundingRate => 11,
        MessageType::LongShortRatio => 12,
        MessageType::TakerVolume => 12,
    }
}

pub fn message_type_from_code(c: u8) -> (r: MessageType)
    ensures
        r == message_type_of(c),
{
    match c {
        1 => MessageType::Trade,
        2 => MessageType::BBO,
        3 => MessageType::L2TopK,
        4 => MessageType::L2Snapshot,
        5 => MessageType::L2Event,
        6 => MessageType::L3Snapshot,
        7 => MessageType::L3Event,
        8 => MessageType::Ticker,
        9 => MessageType::Candlestick,
        10 => MessageType::OpenInterest,
        11 => MessageType::FundingRate,
        12 => MessageType::LongShortRatio,
        _ => MessageType::Other,
    }
}

/// Looks up the code of an exchange name.
pub fn exchange_to_code(s: &str) -> (r: Option<u8>)
    ensures
        r == exchange_code(s@),
{
    if same_text(s, "crypto") {
        Some(1)
    } else if same_text(s, "ftx") {
        Some(2)
    } else if same_text(s, "binance") {
        Some(3)
    } else if same_text(s, "huobi") {
        Some(8)
    } else if same_text(s, "kucoin") {
        Some(10)
    } else if same_text(s, "okx") {
        Some(11)
    } else {
        None
    }
}

/// The exchange name of a code; "unknow" for a code the table lacks.
pub fn exchange_from_code(c: u8) -> (r: String)
    ensures
        r@ == exchange_name(c),
{
    match c {
        1 => String::from_str("crypto"),
        2 => String::from_str("ftx"),
        3 => String::from_str("binance"),
        8 => String::from_str("huobi"),
        10 => String::from_str("kucoin"),
        11 => String::from_str("okx"),
        _ => String::from_str("unknow"),
    }
}

/// Looks up the code of a pair ("BASE/QUOTE").
pub fn pair_to_code(s: &str) -> (r: Option<u16>)
    ensures
        r == pair_code(s@),
{
    if same_text(s, "BTC/USDT") {
        Some(1)
    } else if same_text(s, "BTC/USD") {
        Some(2)
    } else if same_text(s, "USDT/USD") {
        Some(3)
    } else {
        None
    }
}

/// The pair of a code; "UNKNOWN" for a code the table lacks.
pub fn pair_from_code(c: u16) -> (r: String)
    ensures
        r@ == pair_name(c),
{
    match c {
        1 => String::from_str("BTC/USDT"),
        2 => String::from_str("BTC/USD"),
        3 => String::from_str("USDT/USD"),
        _ => String::from_str("UNKNOWN"),
    }
}

/// Looks up the code of a kline period.
pub fn period_to_code(s: &str) -> (r: Option<u8>)
    ensures
        r == period_code(s@),
{
    if same_text(s, "1m") {
        Some(1)
    } else if same_text(s, "5m") {
        Some(2)
    } else if same_text(s, "30m") {
        Some(3)
    } else if same_text(s, "1h") {
        Some(4)
    } else {
        None
    }
}

/// The kline period of a code; "unknow" for a code the table lacks.
pub fn period_from_code(c: u8) -> (r: String)
    ensures
        r@ == period_name(c),
{
    match c {
        1 => String::from_str("1m"),
        2 => String::from_str("5m"),
        3 => String::from_str("30m"),
        4 => String::from_str("1h"),
        _ => String::from_str("unknow"),
    }
}

pub fn trade_side_to_code(s: TradeSide) -> (r: u8)
    ensures
        r == trade_side_code(s),
{
    match s {
        TradeSide::Buy => 1,
        TradeSide::Sell => 2,
    }
}

pub fn trade_side_from_code(c: u8) -> (r: TradeSide)
    ensures
        r == trade_side_of(c),
{
    if c == 1 {
        TradeSide::Buy
    } else {
        TradeSide::Sell
    }
}

} // verus!
