//! The order book of a market: two lists of resting YES orders, bids and
//! asks, each in matching priority.

use crate::identity::Identity;
use crate::orders::{
    all_valid, outranks, price_outranks, ranked, valid_order, Order, Side, BPS_MAX, MAX_ORDERS,
};
use vstd::prelude::*;

verus! {

/// The order book of one market.
#[derive(Clone, Debug, PartialEq, Eq)]
pub struct OrderBook {
    /// The market the book belongs to.
    pub market: Identity,
    /// Resting bids, best (highest) price first.
    pub yes_bids: Vec<Order>,
    /// Resting asks, best (lowest) price first.
    pub yes_asks: Vec<Order>,
}

/// An order book as a mathematical value.
pub struct OrderBookView {
    pub market: Identity,
    pub yes_bids: Seq<Order>,
    pub yes_asks: Seq<Order>,
}

impl View for OrderBook {
    type V = OrderBookView;

    open spec fn view(&self) -> OrderBookView {
        OrderBookView {
            market: self.market,
            yes_bids: self.yes_bids@,
            yes_asks: self.yes_asks@,
        }
    }
}

impl OrderBookView {
    /// The resting orders of one side.
    pub open spec fn side(self, side: Side) -> Seq<Order> {
        match side {
            Side::Bid => self.yes_bids,
            Side::Ask => self.yes_asks,
        }
    }

    /// The book with the resting orders of one side replaced.
    pub open spec fn with_side(self, side: Side, orders: Seq<Order>) -> OrderBookView {
        match side {
            Side::Bid => OrderBookView { yes_bids: orders, ..self },
            Side::Ask => OrderBookView { yes_asks: orders, ..self },
        }
    }

    /// Whether no resting bid meets a resting ask: the best bid is below the
    /// best ask.
    pub open spec fn uncrossed(self) -> bool {
        self.yes_bids.len() > 0 && self.yes_asks.len() > 0 ==> self.yes_bids[0].price
            < self.yes_asks[0].price
    }

    /// The invariant of a book: each side holds at most 50 valid orders in
    /// matching priority, bids non-increasing and asks non-decreasing in
    /// price, and the two sides do not cross.
    pub open spec fn wf(self) -> bool {
        &&& self.yes_bids.len() <= MAX_ORDERS
        &&& self.yes_asks.len() <= MAX_ORDERS
        &&& all_valid(self.yes_bids)
        &&& all_valid(self.yes_asks)
        &&& ranked(Side::Bid, self.yes_bids)
        &&& ranked(Side::Ask, self.yes_asks)
        &&& self.uncrossed()
    }
}

/// A book without orders.
pub open spec fn empty_book(market: Identity) -> OrderBookView {
    OrderBookView { market, yes_bids: Seq::empty(), yes_asks: Seq::empty() }
}

/// Where a new order at `price` comes to rest among the orders of its side:
/// before the first order that it outranks, and so behind every order at the
/// same price; at the end if it outranks none.
pub open spec fn rest_index(orders: Seq<Order>, side: Side, price: u64) -> int
    decreases orders.len(),
{
    if orders.len() == 0 || outranks(side, price, orders[0].price) {
        0
    } else {
        1 + rest_index(orders.drop_first(), side, price)
    }
}

/// The resting place of a new order is the first index whose order it
/// outranks.
pub proof fn lemma_rest_index_is_first_outranked(orders: Seq<Order>, side: Side, price: u64)
    ensures
        ({
            let at = rest_index(orders, side, price);
            &&& 0 <= at <= orders.len()
            &&& forall|j: int| 0 <= j < at ==> !outranks(side, price, #[trigger] orders[j].price)
            &&& at < orders.len() ==> outranks(side, price, orders[at].price)
        }),
    decreases orders.len(),
{
    if orders.len() == 0 || outranks(side, price, orders[0].price) {
    } else {
        lemma_rest_index_is_first_outranked(orders.drop_first(), side, price);
        let at = rest_index(orders, side, price);
        assert forall|j: int| 0 <= j < at implies !outranks(
            side,
            price,
            #[trigger] orders[j].price,
        ) by {
            if j > 0 {
                assert(orders[j] == orders.drop_first()[j - 1]);
            }
        }
    }
}

/// Resting a valid order at its resting place keeps a side in order.
pub proof fn lemma_rest_keeps_order(orders: Seq<Order>, side: Side, order: Order)
    requires
        all_valid(orders),
        ranked(side, orders),
        valid_order(order),
    ensures
        ({
            let rested = orders.insert(rest_index(orders, side, order.price), order);
            &&& all_valid(rested)
            &&& ranked(side, rested)
            &&& rested.len() == orders.len() + 1
            &&& rested[0].price == if orders.len() > 0 && !outranks(
                side,
                order.price,
                orders[0].price,
            ) {
                orders[0].price
            } else {
                order.price
            }
        }),
{
    lemma_rest_index_is_first_outranked(orders, side, order.price);
}

impl OrderBook {
    /// Whether the book satisfies its invariant. Records that come from
    /// outside are to be checked before they are handed to an operation.
    pub fn is_well_formed(&self) -> (ok: bool)
        ensures
            ok == self@.wf(),
    {
        if self.yes_bids.len() > MAX_ORDERS || self.yes_asks.len() > MAX_ORDERS {
            return false;
        }
        if !side_in_order(&self.yes_bids, Side::Bid) || !side_in_order(&self.yes_asks, Side::Ask) {
            return false;
        }
        if self.yes_bids.len() > 0 && self.yes_asks.len() > 0 {
            self.yes_bids[0].price < self.yes_asks[0].price
        } else {
            true
        }
    }
}

/// Whether the orders of one side are all valid and in matching priority.
pub fn side_in_order(orders: &Vec<Order>, side: Side) -> (ok: bool)
    ensures
        ok == (all_valid(orders@) && ranked(side, orders@)),
{
    let mut i: usize = 0;
    while i < orders.len()
        invariant
            0 <= i <= orders.len(),
            forall|k: int| 0 <= k < i ==> valid_order(#[trigger] orders@[k]),
            forall|a: int, b: int|
                0 <= a < b < i ==> !outranks(
                    side,
                    #[trigger] orders@[b].price,
                    #[trigger] orders@[a].price,
                ),
        decreases orders.len() - i,
    {
        let order: Order = orders[i];
        if order.price == 0 || order.price >= BPS_MAX || order.size == 0 {
            return false;
        }
        if i > 0 {
            if price_outranks(side, order.price, orders[i - 1].price) {
                return false;
            }
        }
        i += 1;
    }
    true
}

/// Finds where a new order at `price` comes to rest among the orders of its
/// side.
pub fn resting_index(orders: &Vec<Order>, side: Side, price: u64) -> (at: usize)
    ensures
        at == rest_index(orders@, side, price),
        at <= orders.len(),
{
    let mut i: usize = 0;
    assert(orders@.subrange(0, orders.len() as int) =~= orders@);
    while i < orders.len() && !price_outranks(side, price, orders[i].price)
        invariant
            0 <= i <= orders.len(),
            rest_index(orders@, side, price) == i + rest_index(
                orders@.subrange(i as int, orders.len() as int),
                side,
                price,
            ),
        decreases orders.len() - i,
    {
        assert(orders@.subrange(i as int, orders.len() as int).drop_first()
            =~= orders@.subrange(i + 1, orders.len() as int));
        i += 1;
    }
    i
}

} // verus!
