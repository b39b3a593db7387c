//! Orders of the YES-denominated book: sides, prices in basis points and
//! their priority, the YES-denominated form of NO orders, and the collateral
//! an order escrows.

use crate::error::ClobError;
use crate::identity::Identity;
use vstd::prelude::*;

verus! {

/// Most orders that can rest on one side of a book.
pub const MAX_ORDERS: usize = 50;

/// Base units paid for each share of the winning side.
pub const SHARE_PAYOUT: u64 = 10_000;

/// The price, in basis points, that stands for certainty. The prices of YES
/// and of NO add up to it.
pub const BPS_MAX: u64 = 10_000;

/// The side of the book an order is on.
#[derive(Clone, Copy, Debug, PartialEq, Eq, Hash, Structural)]
pub enum Side {
    /// An offer to buy.
    Bid,
    /// An offer to sell.
    Ask,
}

/// A resting order for YES shares.
#[derive(Clone, Copy, Debug, PartialEq, Eq)]
pub struct Order {
    pub owner: Identity,
    /// Price in basis points, 1 to 9999.
    pub price: u64,
    /// Shares still open.
    pub size: u64,
    /// When the order was placed.
    pub timestamp: i64,
    pub order_id: u64,
}

/// One match of an incoming order against a resting one.
#[derive(Clone, Copy, Debug, PartialEq, Eq, Structural)]
pub struct Fill {
    /// The price of the resting order, at which the shares change hands.
    pub price: u64,
    /// Shares matched.
    pub size: u64,
}

impl Side {
    /// The other side of the book.
    pub open spec fn opposite(self) -> Side {
        match self {
            Side::Bid => Side::Ask,
            Side::Ask => Side::Bid,
        }
    }

    /// The side a code stands for: 0 is a bid, anything else an ask.
    pub open spec fn of_code(code: u8) -> Side {
        if code == 0 {
            Side::Bid
        } else {
            Side::Ask
        }
    }

    /// The other side of the book.
    pub fn flipped(self) -> (other: Side)
        ensures
            other == self.opposite(),
    {
        match self {
            Side::Bid => Side::Ask,
            Side::Ask => Side::Bid,
        }
    }

    /// The side a code stands for: 0 is a bid, anything else an ask.
    pub fn from_code(code: u8) -> (side: Side)
        ensures
            side == Side::of_code(code),
    {
        if code == 0 {
            Side::Bid
        } else {
            Side::Ask
        }
    }
}

/// Whether a price lies strictly between nothing and certainty.
pub open spec fn valid_price(price: u64) -> bool {
    0 < price < BPS_MAX
}

/// Whether an order can rest in a book: its price is valid and some of it is
/// still open.
pub open spec fn valid_order(order: Order) -> bool {
    valid_price(order.price) && order.size > 0
}

/// Whether a resting order at `resting_price` is acceptable to a taker on
/// side `taker` with limit price `limit`: a bid takes asks at or below its
/// limit, an ask takes bids at or above.
pub open spec fn crosses(taker: Side, limit: u64, resting_price: u64) -> bool {
    match taker {
        Side::Bid => resting_price <= limit,
        Side::Ask => resting_price >= limit,
    }
}

/// Whether an order at price `a` has strictly better priority on `side` than
/// one at price `b`: the higher bid, the lower ask.
pub open spec fn outranks(side: Side, a: u64, b: u64) -> bool {
    match side {
        Side::Bid => a > b,
        Side::Ask => a < b,
    }
}

/// Whether the orders of one side stand in matching priority: no order is
/// outranked by a later one. Bids are non-increasing in price, asks are
/// non-decreasing.
pub open spec fn ranked(side: Side, orders: Seq<Order>) -> bool {
    forall|i: int, j: int|
        0 <= i < j < orders.len() ==> !outranks(
            side,
            #[trigger] orders[j].price,
            #[trigger] orders[i].price,
        )
}

/// Whether every order of a list is valid.
pub open spec fn all_valid(orders: Seq<Order>) -> bool {
    forall|i: int| 0 <= i < orders.len() ==> valid_order(#[trigger] orders[i])
}

/// The YES-denominated form of an order: an order for YES stands as it is; an
/// order for NO at price `p` is an order for YES on the other side at the
/// complementary price.
pub open spec fn normalized(side: Side, is_yes: bool, price: u64) -> (Side, u64) {
    if is_yes {
        (side, price)
    } else {
        (side.opposite(), (BPS_MAX - price) as u64)
    }
}

/// The collateral an order for YES escrows, which is the most its owner can
/// lose: the price of each share for a bid, the rest up to certainty for an
/// ask.
pub open spec fn collateral(side: Side, price: u64, size: u64) -> int {
    match side {
        Side::Bid => price * size,
        Side::Ask => (BPS_MAX - price) * size,
    }
}

/// Whether a resting order at `resting_price` is acceptable to the taker.
pub fn price_crosses(taker: Side, limit: u64, resting_price: u64) -> (acceptable: bool)
    ensures
        acceptable == crosses(taker, limit, resting_price),
{
    match taker {
        Side::Bid => resting_price <= limit,
        Side::Ask => resting_price >= limit,
    }
}

/// Whether an order at price `a` has strictly better priority on `side` than
/// one at price `b`.
pub fn price_outranks(side: Side, a: u64, b: u64) -> (better: bool)
    ensures
        better == outranks(side, a, b),
{
    match side {
        Side::Bid => a > b,
        Side::Ask => a < b,
    }
}

/// Puts an order into its YES-denominated form.
pub fn normalize(side: Side, is_yes: bool, price: u64) -> (order: (Side, u64))
    requires
        price <= BPS_MAX,
    ensures
        order == normalized(side, is_yes, price),
        valid_price(price) ==> valid_price(order.1),
{
    if is_yes {
        (side, price)
    } else {
        (side.flipped(), BPS_MAX - price)
    }
}

/// Computes the collateral an order for YES escrows, or fails with `Overflow`
/// when it does not fit an amount.
pub fn required_collateral(side: Side, price: u64, size: u64) -> (result: Result<u64, ClobError>)
    requires
        price <= BPS_MAX,
    ensures
        match result {
            Ok(amount) => amount == collateral(side, price, size),
            Err(e) => e == ClobError::Overflow && collateral(side, price, size) > u64::MAX,
        },
{
    let per_share: u64 = match side {
        Side::Bid => price,
        Side::Ask => BPS_MAX - price,
    };
    match per_share.checked_mul(size) {
        Some(amount) => Ok(amount),
        None => Err(ClobError::Overflow),
    }
}

/// Normalizing a NO order and normalizing the result again as a NO order
/// gives the order back: the two sides are complementary.
pub proof fn lemma_normalized_twice(side: Side, price: u64)
    requires
        price <= BPS_MAX,
    ensures
        ({
            let once = normalized(side, false, price);
            normalized(once.0, false, once.1) == (side, price)
        }),
{
}

/// A bid and an ask of one size at one price escrow between them the full
/// value of the shares.
pub proof fn lemma_collateral_is_complementary(price: u64, size: u64)
    requires
        price <= BPS_MAX,
    ensures
        collateral(Side::Bid, price, size) + collateral(Side::Ask, price, size) == BPS_MAX * size,
{
    assert(price * size + (BPS_MAX - price) * size == BPS_MAX * size) by (nonlinear_arith);
}

/// Collateral is proportional to size: what the filled part and the open part
/// of an order escrow adds up to what the whole order escrows.
pub proof fn lemma_collateral_splits(side: Side, price: u64, filled: u64, open: u64)
    requires
        price <= BPS_MAX,
        filled + open <= u64::MAX,
    ensures
        collateral(side, price, (filled + open) as u64) == collateral(side, price, filled)
            + collateral(side, price, open),
        0 <= collateral(side, price, open),
{
    assert(price * (filled + open) == price * filled + price * open) by (nonlinear_arith);
    assert((BPS_MAX - price) * (filled + open) == (BPS_MAX - price) * filled + (BPS_MAX - price)
        * open) by (nonlinear_arith);
    assert(0 <= price * open) by (nonlinear_arith)
        requires
            0 <= price,
            0 <= open,
    ;
    assert(0 <= (BPS_MAX - price) * open) by (nonlinear_arith)
        requires
            0 <= BPS_MAX - price,
            0 <= open,
    ;
}

} // verus!
