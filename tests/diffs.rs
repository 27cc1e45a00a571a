use crypto_market_integration::{
    generated_diffs, get_orders, restore_diffs, restore_orders, Decimal, MarketType, MessageType,
    Order, OrderBookMsg, OrderType,
};

fn dec(mantissa: u128, scale: u8) -> Decimal {
    Decimal { mantissa, scale }
}

/// A level with a whole price and quantity; the quote quantity is their product.
fn lvl(price: u128, qty: u128) -> Order {
    Order {
        price: dec(price, 0),
        quantity_base: dec(qty, 0),
        quantity_quote: dec(price * qty, 0),
        quantity_contract: Some(dec(qty, 0)),
    }
}

fn removal(price: u128, contract: Option<Decimal>) -> Order {
    Order { price: dec(price, 0), quantity_base: dec(0, 0), quantity_quote: dec(0, 0), quantity_contract: contract }
}

fn book(asks: Vec<Order>, bids: Vec<Order>) -> OrderBookMsg {
    OrderBookMsg {
        exchange: "ftx".to_string(),
        market_type: MarketType::LinearFuture,
        symbol: "BTC-PERP".to_string(),
        pair: "BTC/USD".to_string(),
        msg_type: MessageType::L2Snapshot,
        timestamp: 10,
        snapshot: true,
        asks,
        bids,
        seq_id: None,
        prev_seq_id: None,
        json: String::new(),
    }
}

#[test]
fn diff_of_unchanged_levels_is_empty() {
    let old = vec![lvl(100, 1), lvl(101, 2)];
    let new = vec![lvl(100, 1), lvl(101, 2)];
    assert!(get_orders(&new, &old, OrderType::Ask).is_empty());
}

#[test]
fn diff_of_quantity_update() {
    let old = vec![lvl(100, 1), lvl(101, 2)];
    let new = vec![lvl(100, 1), lvl(101, 3)];
    let d = get_orders(&new, &old, OrderType::Ask);
    assert_eq!(d, vec![lvl(101, 3)]);
    assert_eq!(restore_orders(&old, &d, OrderType::Ask), new);
}

#[test]
fn diff_of_insertion() {
    let old = vec![lvl(100, 1), lvl(102, 2)];
    let new = vec![lvl(100, 1), lvl(101, 5), lvl(102, 2)];
    let d = get_orders(&new, &old, OrderType::Ask);
    assert_eq!(d, vec![removal(102, Some(dec(0, 0))), lvl(101, 5), lvl(102, 2)]);
    assert!(d.iter().any(|o| o.price == dec(101, 0) && *o == new[1]));
    assert_eq!(restore_orders(&old, &d, OrderType::Ask), new);
}

#[test]
fn bid_inside_level_marks_old_removed() {
    let old = vec![lvl(100, 1)];
    let new = vec![lvl(101, 5), lvl(100, 1)];
    let d = get_orders(&new, &old, OrderType::Bid);
    assert_eq!(d, vec![removal(100, Some(dec(0, 0))), lvl(101, 5), lvl(100, 1)]);
    assert_eq!(restore_orders(&old, &d, OrderType::Bid), new);
}

#[test]
fn diff_of_removals() {
    let old = vec![lvl(100, 1), lvl(101, 2), lvl(102, 3), lvl(103, 4)];
    let new = vec![lvl(100, 1), lvl(102, 3)];
    let d = get_orders(&new, &old, OrderType::Ask);
    assert_eq!(d, vec![removal(101, Some(dec(0, 0))), removal(103, None)]);
    let front = get_orders(&vec![lvl(102, 3)], &vec![lvl(100, 1), lvl(102, 3)], OrderType::Ask);
    assert_eq!(front, vec![removal(100, Some(dec(0, 0)))]);
    assert_eq!(restore_orders(&old, &d, OrderType::Ask), new);
}

#[test]
fn bid_side_diff_and_restore() {
    let old = vec![lvl(105, 1), lvl(103, 2), lvl(101, 3)];
    let new = vec![lvl(106, 7), lvl(103, 4), lvl(102, 1)];
    let d = get_orders(&new, &old, OrderType::Bid);
    assert_eq!(
        d,
        vec![
            removal(105, Some(dec(0, 0))),
            removal(103, Some(dec(0, 0))),
            removal(101, Some(dec(0, 0))),
            lvl(106, 7),
            lvl(103, 4),
            lvl(102, 1),
        ]
    );
    assert_eq!(restore_orders(&old, &d, OrderType::Bid), new);
}

#[test]
fn diff_from_and_to_empty() {
    let ladder = vec![lvl(100, 1), lvl(101, 2)];
    let empty: Vec<Order> = vec![];
    assert_eq!(get_orders(&ladder, &empty, OrderType::Ask), ladder);
    assert_eq!(get_orders(&empty, &ladder, OrderType::Ask), vec![removal(100, None), removal(101, None)]);
    assert_eq!(restore_orders(&ladder, &get_orders(&empty, &ladder, OrderType::Ask), OrderType::Ask), empty);
    assert_eq!(restore_orders(&empty, &ladder, OrderType::Ask), ladder);
}

#[test]
fn restore_with_empty_delta_keeps_ladder() {
    let ladder = vec![lvl(100, 1), lvl(101, 2)];
    assert_eq!(restore_orders(&ladder, &vec![], OrderType::Ask), ladder);
}

#[test]
fn prices_compare_by_value() {
    // 100 and 100.0 are the same price; 99.95 is below 100
    let old = vec![Order { price: dec(1000, 1), ..lvl(100, 1) }];
    let new = vec![Order { price: dec(9995, 2), ..lvl(100, 3) }, Order { price: dec(1000, 1), ..lvl(100, 1) }];
    let d = get_orders(&new, &old, OrderType::Ask);
    assert_eq!(d, vec![Order { price: dec(1000, 1), ..removal(0, Some(dec(0, 0))) }, new[0], new[1]]);
    assert_eq!(restore_orders(&old, &d, OrderType::Ask), new);
    let same_value = vec![lvl(100, 1)];
    assert!(get_orders(&same_value, &old, OrderType::Ask).is_empty());
}

#[test]
fn book_diff_identity() {
    let b = book(vec![lvl(100, 1), lvl(101, 2)], vec![lvl(99, 3), lvl(98, 1)]);
    let d = generated_diffs(&b, &b);
    assert!(d.asks.is_empty());
    assert!(d.bids.is_empty());
    assert_eq!(d.exchange, "ftx");
    assert_eq!(d.timestamp, 10);
}

#[test]
fn book_diff_then_restore() {
    let old = book(vec![lvl(100, 1), lvl(101, 2), lvl(104, 1)], vec![lvl(99, 3), lvl(98, 1)]);
    let mut latest = book(vec![lvl(99, 2), lvl(101, 5), lvl(103, 1)], vec![lvl(98, 2), lvl(97, 6)]);
    latest.timestamp = 20;
    latest.seq_id = Some(9);
    let d = generated_diffs(&old, &latest);
    assert_eq!(d.timestamp, 20);
    assert_eq!(d.seq_id, Some(9));
    let r = restore_diffs(&old, &d);
    assert_eq!(r.asks, latest.asks);
    assert_eq!(r.bids, latest.bids);
    assert_eq!(r.timestamp, 20);
}
