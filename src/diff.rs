//! Incremental updates between two snapshots of one side of an order book.
//!
//! A delta lists the levels that changed: an added or updated level carries
//! its new quantities; a removed level has zero base and quote quantities (its
//! contract quantity is `Some(0)` when the removal is found while both ladders
//! still have levels, `None` when it is found after the new ladder has run
//! out).
//!
//! The diff walks both ladders together. When the current new and old levels
//! differ in price, the old level is marked removed and only the old ladder
//! advances, whichever of the two prices lies further inside the book; the
//! new levels from there on then reach the delta once the old ladder has run
//! out. So a delta is not in general in price order.
//!
//! Restoring walks the old ladder and the delta together, and on equal prices
//! consumes both entries (replacing the old level, or dropping it when the
//! entry's quote quantity is zero); an empty delta leaves the ladder as it
//! is. With these rules, restoring the delta from `old` to `new` onto `old`
//! gives `new` back (`diff_then_restore`).

use vstd::prelude::*;

use crate::compare::{compare_decimal, value_key};
use crate::decimal::Decimal;
use crate::messages::{zero, Order, OrderBookMsg};
use crate::tables::OrderType;

verus! {

/// `a` comes before `b` in the side's price order: lower for asks, higher
/// for bids.
pub open spec fn before(a: Decimal, b: Decimal, side: OrderType) -> bool {
    match side {
        OrderType::Ask => value_key(a) < value_key(b),
        OrderType::Bid => value_key(a) > value_key(b),
    }
}

/// The ladder is strictly in the side's price order.
pub open spec fn sorted(l: Seq<Order>, side: OrderType) -> bool {
    forall|i: int, j: int| 0 <= i < j < l.len() ==> before(#[trigger] l[i].price, #[trigger] l[j].price, side)
}

/// The level at `o`'s price with the quantities of `n`.
pub open spec fn updated(o: Order, n: Order) -> Order {
    Order {
        price: o.price,
        quantity_base: n.quantity_base,
        quantity_quote: n.quantity_quote,
        quantity_contract: n.quantity_contract,
    }
}

/// Removal of `o`'s level, found while both ladders still had levels.
pub open spec fn interior_removal(o: Order) -> Order {
    Order { price: o.price, quantity_base: zero(), quantity_quote: zero(), quantity_contract: Some(zero()) }
}

/// Removal of `o`'s level, found after the new ladder ran out.
pub open spec fn trailing_removal(o: Order) -> Order {
    Order { price: o.price, quantity_base: zero(), quantity_quote: zero(), quantity_contract: None }
}

/// The delta from the ladder `old` to the ladder `new`, by a walk over both.
/// Levels at equal prices with equal quote quantities are left out; at
/// differing prices the old level is marked removed and the old ladder
/// advances.
pub open spec fn diff_levels(new: Seq<Order>, old: Seq<Order>) -> Seq<Order>
    decreases new.len() + old.len(),
{
    if new.len() == 0 {
        old.map_values(|o: Order| trailing_removal(o))
    } else if old.len() == 0 {
        new
    } else {
        let n = new[0];
        let o = old[0];
        if value_key(n.price) == value_key(o.price) {
            if value_key(n.quantity_quote) == value_key(o.quantity_quote) {
                diff_levels(new.drop_first(), old.drop_first())
            } else {
                seq![updated(o, n)] + diff_levels(new.drop_first(), old.drop_first())
            }
        } else {
            seq![interior_removal(o)] + diff_levels(new, old.drop_first())
        }
    }
}

/// The ladder that applying `delta` to `old` gives, by a merge that walks both
/// in the side's price order: an entry at an old level's price replaces it, or
/// removes it when its quote quantity is zero; any other entry is inserted.
pub open spec fn restore_levels(old: Seq<Order>, delta: Seq<Order>, side: OrderType) -> Seq<Order>
    decreases old.len() + delta.len(),
{
    if old.len() == 0 {
        delta
    } else if delta.len() == 0 {
        old
    } else {
        let o = old[0];
        let d = delta[0];
        if value_key(o.price) == value_key(d.price) {
            if d.quantity_quote.mantissa == 0 {
                restore_levels(old.drop_first(), delta.drop_first(), side)
            } else {
                seq![d] + restore_levels(old.drop_first(), delta.drop_first(), side)
            }
        } else if before(d.price, o.price, side) {
            seq![d] + restore_levels(old, delta.drop_first(), side)
        } else {
            seq![o] + restore_levels(old.drop_first(), delta, side)
        }
    }
}

fn is_before(a: Decimal, b: Decimal, side: OrderType) -> (r: bool)
    ensures
        r == before(a, b, side),
{
    let c = compare_decimal(a, b);
    match side {
        OrderType::Ask => c < 0,
        OrderType::Bid => c > 0,
    }
}

/// The delta from the ladder `old` to the ladder `new` of one side. The walk
/// is the same on both sides, so the side is not consulted.
pub fn get_orders(new: &Vec<Order>, old: &Vec<Order>, _type: OrderType) -> (r: Vec<Order>)
    ensures
        r@ == diff_levels(new@, old@),
{
    let zero_dec = Decimal { mantissa: 0, scale: 0 };
    let mut result: Vec<Order> = Vec::new();
    let mut i: usize = 0;
    let mut j: usize = 0;
    assert(new@.skip(0) =~= new@ && old@.skip(0) =~= old@);
    assert(result@ + diff_levels(new@, old@) =~= diff_levels(new@, old@));
    while i < new.len() && j < old.len()
        invariant
            i <= new@.len(),
            j <= old@.len(),
            zero_dec == zero(),
            result@ + diff_levels(new@.skip(i as int), old@.skip(j as int)) == diff_levels(
                new@,
                old@,
            ),
        decreases new@.len() + old@.len() - i - j,
    {
        let n = new[i];
        let o = old[j];
        let ghost ns = new@.skip(i as int);
        let ghost os = old@.skip(j as int);
        assert(ns[0] == n && os[0] == o);
        assert(ns.drop_first() =~= new@.skip(i + 1));
        assert(os.drop_first() =~= old@.skip(j + 1));
        let ghost before_result = result@;
        if compare_decimal(n.price, o.price) == 0 {
            if compare_decimal(n.quantity_quote, o.quantity_quote) != 0 {
                result.push(
                    Order {
                        price: o.price,
                        quantity_base: n.quantity_base,
                        quantity_quote: n.quantity_quote,
                        quantity_contract: n.quantity_contract,
                    },
                );
                assert(result@ + diff_levels(ns.drop_first(), os.drop_first()) =~= before_result
                    + (seq![updated(o, n)] + diff_levels(ns.drop_first(), os.drop_first())));
            }
            i = i + 1;
            j = j + 1;
        } else {
            result.push(
                Order {
                    price: o.price,
                    quantity_base: zero_dec,
                    quantity_quote: zero_dec,
                    quantity_contract: Some(zero_dec),
                },
            );
            assert(result@ + diff_levels(ns, os.drop_first()) =~= before_result + (seq![
                interior_removal(o),
            ] + diff_levels(ns, os.drop_first())));
            j = j + 1;
        }
    }
    if i < new.len() {
        assert(diff_levels(new@.skip(i as int), old@.skip(j as int)) == new@.skip(i as int));
        while i < new.len()
            invariant
                i <= new@.len(),
                result@ + new@.skip(i as int) == diff_levels(new@, old@),
            decreases new@.len() - i,
        {
            let ghost before_result = result@;
            result.push(new[i]);
            assert(before_result + new@.skip(i as int) =~= result@ + new@.skip(i + 1));
            i = i + 1;
        }
        assert(result@ + new@.skip(i as int) =~= result@);
    } else {
        let ghost rest = old@.skip(j as int);
        assert(new@.skip(i as int).len() == 0);
        assert(diff_levels(new@.skip(i as int), rest) == rest.map_values(
            |o: Order| trailing_removal(o),
        ));
        let ghost start = result@;
        let ghost j0 = j;
        while j < old.len()
            invariant
                j0 <= j <= old@.len(),
                rest == old@.skip(j0 as int),
                zero_dec == zero(),
                result@ == start + rest.take(j - j0).map_values(|o: Order| trailing_removal(o)),
                start + rest.map_values(|o: Order| trailing_removal(o)) == diff_levels(new@, old@),
            decreases old@.len() - j,
        {
            let o = old[j];
            result.push(
                Order {
                    price: o.price,
                    quantity_base: zero_dec,
                    quantity_quote: zero_dec,
                    quantity_contract: None,
                },
            );
            assert(rest[j - j0] == o);
            assert(result@ =~= start + rest.take(j + 1 - j0).map_values(|o: Order| trailing_removal(o)));
            j = j + 1;
        }
        assert(rest.take(j - j0) =~= rest);
    }
    result
}

/// Applies the delta `diff` to the ladder `old` of one side.
pub fn restore_orders(old: &Vec<Order>, diff: &Vec<Order>, side: OrderType) -> (r: Vec<Order>)
    ensures
        r@ == restore_levels(old@, diff@, side),
{
    let mut result: Vec<Order> = Vec::new();
    let mut m: usize = 0;
    let mut k: usize = 0;
    assert(old@.skip(0) =~= old@ && diff@.skip(0) =~= diff@);
    assert(result@ + restore_levels(old@, diff@, side) =~= restore_levels(old@, diff@, side));
    while m < old.len() && k < diff.len()
        invariant
            m <= old@.len(),
            k <= diff@.len(),
            result@ + restore_levels(old@.skip(m as int), diff@.skip(k as int), side) == restore_levels(
                old@,
                diff@,
                side,
            ),
        decreases old@.len() + diff@.len() - m - k,
    {
        let o = old[m];
        let d = diff[k];
        let ghost os = old@.skip(m as int);
        let ghost ds = diff@.skip(k as int);
        assert(os[0] == o && ds[0] == d);
        assert(os.drop_first() =~= old@.skip(m + 1));
        assert(ds.drop_first() =~= diff@.skip(k + 1));
        let ghost before_result = result@;
        if compare_decimal(o.price, d.price) == 0 {
            if d.quantity_quote.mantissa != 0 {
                result.push(d);
                assert(result@ + restore_levels(os.drop_first(), ds.drop_first(), side) =~= before_result
                    + (seq![d] + restore_levels(os.drop_first(), ds.drop_first(), side)));
            }
            m = m + 1;
            k = k + 1;
        } else if is_before(d.price, o.price, side) {
            result.push(d);
            assert(result@ + restore_levels(os, ds.drop_first(), side) =~= before_result + (seq![d]
                + restore_levels(os, ds.drop_first(), side)));
            k = k + 1;
        } else {
            result.push(o);
            assert(result@ + restore_levels(os.drop_first(), ds, side) =~= before_result + (seq![o]
                + restore_levels(os.drop_first(), ds, side)));
            m = m + 1;
        }
    }
    // what is left of one of the two ladders
    let ghost os = old@.skip(m as int);
    let ghost ds = diff@.skip(k as int);
    assert(restore_levels(os, ds, side) == if m < old.len() { os } else { ds });
    if m < old.len() {
        while m < old.len()
            invariant
                m <= old@.len(),
                result@ + old@.skip(m as int) == restore_levels(old@, diff@, side),
            decreases old@.len() - m,
        {
            let ghost before_result = result@;
            result.push(old[m]);
            assert(before_result + old@.skip(m as int) =~= result@ + old@.skip(m + 1));
            m = m + 1;
        }
        assert(result@ + old@.skip(m as int) =~= result@);
    } else {
        while k < diff.len()
            invariant
                k <= diff@.len(),
                result@ + diff@.skip(k as int) == restore_levels(old@, diff@, side),
            decreases diff@.len() - k,
        {
            let ghost before_result = result@;
            result.push(diff[k]);
            assert(before_result + diff@.skip(k as int) =~= result@ + diff@.skip(k + 1));
            k = k + 1;
        }
        assert(result@ + diff@.skip(k as int) =~= result@);
    }
    result
}

} // verus!
verus! {

/// Every price in `l` comes after `p` in the side's order.
pub open spec fn all_after(p: Decimal, l: Seq<Order>, side: OrderType) -> bool {
    forall|i: int| 0 <= i < l.len() ==> before(p, #[trigger] l[i].price, side)
}

/// No level of `l` has a zero quote quantity (such a level reads as a removal).
pub open spec fn live_levels(l: Seq<Order>) -> bool {
    forall|i: int| 0 <= i < l.len() ==> (#[trigger] l[i]).quantity_quote.mantissa != 0
}

/// Levels of `old` and `new` at equal prices write the price the same way,
/// and are the same level when their quote quantities are equal.
pub open spec fn consistent_levels(old: Seq<Order>, new: Seq<Order>) -> bool {
    forall|j: int, i: int|
        0 <= j < old.len() && 0 <= i < new.len() && value_key(#[trigger] old[j].price) == value_key(
            #[trigger] new[i].price,
        ) ==> old[j].price == new[i].price && (value_key(old[j].quantity_quote) == value_key(
            new[i].quantity_quote,
        ) ==> old[j] == new[i])
}

/// Diff identity: the delta from a ladder to itself is empty.
pub proof fn diff_identity(l: Seq<Order>)
    ensures
        diff_levels(l, l) == Seq::<Order>::empty(),
    decreases l.len(),
{
    if l.len() == 0 {
        assert(l.map_values(|o: Order| trailing_removal(o)) =~= Seq::<Order>::empty());
    } else {
        diff_identity(l.drop_first());
    }
}

proof fn lemma_diff_after(p: Decimal, new: Seq<Order>, old: Seq<Order>, side: OrderType)
    requires
        all_after(p, new, side),
        all_after(p, old, side),
    ensures
        all_after(p, diff_levels(new, old), side),
    decreases new.len() + old.len(),
{
    if new.len() == 0 {
        let d = old.map_values(|o: Order| trailing_removal(o));
        assert forall|i: int| 0 <= i < d.len() implies before(p, #[trigger] d[i].price, side) by {
            assert(d[i].price == old[i].price);
        }
    } else if old.len() > 0 {
        let n = new[0];
        let o = old[0];
        assert(before(p, n.price, side));
        assert(before(p, o.price, side));
        assert(all_after(p, new.drop_first(), side)) by {
            assert forall|i: int| 0 <= i < new.drop_first().len() implies before(
                p,
                #[trigger] new.drop_first()[i].price,
                side,
            ) by {
                assert(new.drop_first()[i] == new[i + 1]);
            }
        }
        assert(all_after(p, old.drop_first(), side)) by {
            assert forall|i: int| 0 <= i < old.drop_first().len() implies before(
                p,
                #[trigger] old.drop_first()[i].price,
                side,
            ) by {
                assert(old.drop_first()[i] == old[i + 1]);
            }
        }
        lemma_diff_after(p, new.drop_first(), old.drop_first(), side);
        lemma_diff_after(p, new, old.drop_first(), side);
        let d = diff_levels(new, old);
        if value_key(n.price) == value_key(o.price) {
            let rest = diff_levels(new.drop_first(), old.drop_first());
            if value_key(n.quantity_quote) != value_key(o.quantity_quote) {
                assert forall|i: int| 0 <= i < d.len() implies before(p, #[trigger] d[i].price, side) by {
                    if i > 0 {
                        assert(d[i] == rest[i - 1]);
                    }
                }
            }
        } else {
            let rest = diff_levels(new, old.drop_first());
            assert forall|i: int| 0 <= i < d.len() implies before(p, #[trigger] d[i].price, side) by {
                if i > 0 {
                    assert(d[i] == rest[i - 1]);
                }
            }
        }
    }
}

proof fn lemma_restore_trailing(old: Seq<Order>, side: OrderType)
    ensures
        restore_levels(old, old.map_values(|o: Order| trailing_removal(o)), side) == Seq::<
            Order,
        >::empty(),
    decreases old.len(),
{
    let d = old.map_values(|o: Order| trailing_removal(o));
    if old.len() > 0 {
        assert(d.drop_first() =~= old.drop_first().map_values(|o: Order| trailing_removal(o)));
        assert(d[0] == trailing_removal(old[0]));
        lemma_restore_trailing(old.drop_first(), side);
    } else {
        assert(d =~= Seq::<Order>::empty());
    }
}

proof fn lemma_tails(old: Seq<Order>, new: Seq<Order>, side: OrderType)
    requires
        sorted(old, side),
        sorted(new, side),
        live_levels(new),
        consistent_levels(old, new),
    ensures
        old.len() > 0 ==> sorted(old.drop_first(), side) && consistent_levels(old.drop_first(), new)
            && all_after(old[0].price, old.drop_first(), side),
        new.len() > 0 ==> sorted(new.drop_first(), side) && live_levels(new.drop_first())
            && consistent_levels(old, new.drop_first()) && all_after(
            new[0].price,
            new.drop_first(),
            side,
        ),
        old.len() > 0 && new.len() > 0 ==> consistent_levels(old.drop_first(), new.drop_first()),
{
    if old.len() > 0 {
        let t = old.drop_first();
        assert forall|i: int, j: int| 0 <= i < j < t.len() implies before(
            #[trigger] t[i].price,
            #[trigger] t[j].price,
            side,
        ) by {
            assert(t[i] == old[i + 1] && t[j] == old[j + 1]);
        }
        assert forall|i: int| 0 <= i < t.len() implies before(old[0].price, #[trigger] t[i].price, side) by {
            assert(t[i] == old[i + 1]);
        }
        assert forall|j: int, i: int|
            0 <= j < t.len() && 0 <= i < new.len() && value_key(#[trigger] t[j].price) == value_key(
                #[trigger] new[i].price,
            ) implies t[j].price == new[i].price && (value_key(t[j].quantity_quote) == value_key(
            new[i].quantity_quote,
        ) ==> t[j] == new[i]) by {
            assert(t[j] == old[j + 1]);
        }
    }
    if new.len() > 0 {
        let t = new.drop_first();
        assert forall|i: int, j: int| 0 <= i < j < t.len() implies before(
            #[trigger] t[i].price,
            #[trigger] t[j].price,
            side,
        ) by {
            assert(t[i] == new[i + 1] && t[j] == new[j + 1]);
        }
        assert forall|i: int| 0 <= i < t.len() implies before(new[0].price, #[trigger] t[i].price, side) by {
            assert(t[i] == new[i + 1]);
        }
        assert forall|i: int| 0 <= i < t.len() implies (#[trigger] t[i]).quantity_quote.mantissa != 0 by {
            assert(t[i] == new[i + 1]);
        }
        assert forall|j: int, i: int|
            0 <= j < old.len() && 0 <= i < t.len() && value_key(#[trigger] old[j].price) == value_key(
                #[trigger] t[i].price,
            ) implies old[j].price == t[i].price && (value_key(old[j].quantity_quote) == value_key(
            t[i].quantity_quote,
        ) ==> old[j] == t[i]) by {
            assert(t[i] == new[i + 1]);
        }
    }
    if old.len() > 0 && new.len() > 0 {
        let a = old.drop_first();
        let b = new.drop_first();
        assert forall|j: int, i: int|
            0 <= j < a.len() && 0 <= i < b.len() && value_key(#[trigger] a[j].price) == value_key(
                #[trigger] b[i].price,
            ) implies a[j].price == b[i].price && (value_key(a[j].quantity_quote) == value_key(
            b[i].quantity_quote,
        ) ==> a[j] == b[i]) by {
            assert(a[j] == old[j + 1]);
            assert(b[i] == new[i + 1]);
        }
    }
}

/// Diff then restore: applying the delta from `old` to `new` to `old` gives
/// `new`, for ladders strictly in the side's order whose new levels have
/// non-zero quote quantities and whose shared prices are written alike, with
/// levels of equal price and quote quantity equal.
pub proof fn diff_then_restore(old: Seq<Order>, new: Seq<Order>, side: OrderType)
    requires
        sorted(old, side),
        sorted(new, side),
        live_levels(new),
        consistent_levels(old, new),
    ensures
        restore_levels(old, diff_levels(new, old), side) == new,
    decreases old.len() + new.len(),
{
    lemma_tails(old, new, side);
    if new.len() == 0 {
        lemma_restore_trailing(old, side);
        assert(new =~= Seq::<Order>::empty());
    } else if old.len() == 0 {
    } else {
        let n = new[0];
        let o = old[0];
        let delta = diff_levels(new, old);
        if value_key(n.price) == value_key(o.price) {
            let d = diff_levels(new.drop_first(), old.drop_first());
            diff_then_restore(old.drop_first(), new.drop_first(), side);
            if value_key(n.quantity_quote) == value_key(o.quantity_quote) {
                assert(o == n);
                if d.len() == 0 {
                    assert(old.drop_first() == new.drop_first());
                    assert(old =~= seq![o] + old.drop_first());
                    assert(new =~= seq![n] + new.drop_first());
                } else {
                    assert(all_after(o.price, new.drop_first(), side));
                    lemma_diff_after(o.price, new.drop_first(), old.drop_first(), side);
                    assert(before(o.price, d[0].price, side));
                    assert(restore_levels(old, d, side) == seq![o] + restore_levels(
                        old.drop_first(),
                        d,
                        side,
                    ));
                    assert(new =~= seq![n] + new.drop_first());
                }
            } else {
                assert(updated(o, n) == n);
                assert(delta == seq![n] + d);
                assert((seq![n] + d)[0] == n);
                assert((seq![n] + d).drop_first() =~= d);
                assert(new =~= seq![n] + new.drop_first());
            }
        } else {
            let d = diff_levels(new, old.drop_first());
            diff_then_restore(old.drop_first(), new, side);
            let r = interior_removal(o);
            assert((seq![r] + d)[0] == r);
            assert((seq![r] + d).drop_first() =~= d);
        }
    }
}

/// The update from the book `old` to the book `latest`: the header fields
/// of `latest`, and for each side the delta between the two ladders.
pub fn generated_diffs(old: &OrderBookMsg, latest: &OrderBookMsg) -> (r: OrderBookMsg)
    ensures
        r.asks@ == diff_levels(latest.asks@, old.asks@),
        r.bids@ == diff_levels(latest.bids@, old.bids@),
        r.exchange@ == latest.exchange@,
        r.market_type == latest.market_type,
        r.symbol@ == latest.symbol@,
        r.pair@ == latest.pair@,
        r.msg_type == latest.msg_type,
        r.timestamp == latest.timestamp,
        r.snapshot == latest.snapshot,
        r.seq_id == latest.seq_id,
        r.prev_seq_id == latest.prev_seq_id,
        r.json@ == latest.json@,
{
    OrderBookMsg {
        exchange: latest.exchange.clone(),
        market_type: latest.market_type,
        symbol: latest.symbol.clone(),
        pair: latest.pair.clone(),
        msg_type: latest.msg_type,
        timestamp: latest.timestamp,
        snapshot: latest.snapshot,
        asks: get_orders(&latest.asks, &old.asks, OrderType::Ask),
        bids: get_orders(&latest.bids, &old.bids, OrderType::Bid),
        seq_id: latest.seq_id,
        prev_seq_id: latest.prev_seq_id,
        json: latest.json.clone(),
    }
}

/// The book that applying the update `diff` to the book `old` gives: the
/// header fields of `diff`, and for each side the restored ladder.
pub fn restore_diffs(old: &OrderBookMsg, diff: &OrderBookMsg) -> (r: OrderBookMsg)
    ensures
        r.asks@ == restore_levels(old.asks@, diff.asks@, OrderType::Ask),
        r.bids@ == restore_levels(old.bids@, diff.bids@, OrderType::Bid),
        r.exchange@ == diff.exchange@,
        r.market_type == diff.market_type,
        r.symbol@ == diff.symbol@,
        r.pair@ == diff.pair@,
        r.msg_type == diff.msg_type,
        r.timestamp == diff.timestamp,
        r.snapshot == diff.snapshot,
        r.seq_id == diff.seq_id,
        r.prev_seq_id == diff.prev_seq_id,
        r.json@ == diff.json@,
{
    OrderBookMsg {
        exchange: diff.exchange.clone(),
        market_type: diff.market_type,
        symbol: diff.symbol.clone(),
        pair: diff.pair.clone(),
        msg_type: diff.msg_type,
        timestamp: diff.timestamp,
        snapshot: diff.snapshot,
        asks: restore_orders(&old.asks, &diff.asks, OrderType::Ask),
        bids: restore_orders(&old.bids, &diff.bids, OrderType::Bid),
        seq_id: diff.seq_id,
        prev_seq_id: diff.prev_seq_id,
        json: diff.json.clone(),
    }
}

} // verus!
