//! The matching engine: an incoming order is filled against the resting
//! orders of the other side, best price first, each fill at the price of the
//! resting order.

use crate::orders::{all_valid, crosses, outranks, price_crosses, ranked, Fill, Order, Side};
use vstd::prelude::*;

verus! {

/// The shares open in a list of orders.
pub open spec fn open_size(orders: Seq<Order>) -> int
    decreases orders.len(),
{
    if orders.len() == 0 {
        0
    } else {
        orders[0].size + open_size(orders.drop_first())
    }
}

/// The shares matched in a list of fills.
pub open spec fn filled_size(fills: Seq<Fill>) -> int
    decreases fills.len(),
{
    if fills.len() == 0 {
        0
    } else {
        fills[0].size + filled_size(fills.drop_first())
    }
}

/// The shares on offer to a taker: the open shares of the leading resting
/// orders that cross its limit.
pub open spec fn crossing_depth(resting: Seq<Order>, taker: Side, limit: u64) -> int
    decreases resting.len(),
{
    if resting.len() == 0 || !crosses(taker, limit, resting[0].price) {
        0
    } else {
        resting[0].size + crossing_depth(resting.drop_first(), taker, limit)
    }
}

/// What matching leaves behind.
pub struct MatchOutcome {
    /// The resting orders after the match.
    pub resting: Seq<Order>,
    /// The part of the incoming order that found no counterparty.
    pub remaining: u64,
    /// The fills, in the order in which they were made.
    pub fills: Seq<Fill>,
}

/// Matches an incoming order of `size` shares with limit `limit` against the
/// resting orders of the other side. While shares remain and the best
/// resting order crosses the limit, the smaller of the two sizes is filled at
/// the resting order's price; a resting order that is used up leaves the
/// book, one that is not stays with its size reduced.
pub open spec fn match_orders(resting: Seq<Order>, taker: Side, limit: u64, size: u64)
    -> MatchOutcome
    decreases resting.len(),
{
    if size == 0 || resting.len() == 0 || !crosses(taker, limit, resting[0].price) {
        MatchOutcome { resting, remaining: size, fills: Seq::empty() }
    } else if size < resting[0].size {
        MatchOutcome {
            resting: resting.update(
                0,
                Order { size: (resting[0].size - size) as u64, ..resting[0] },
            ),
            remaining: 0,
            fills: seq![Fill { price: resting[0].price, size }],
        }
    } else {
        let rest = match_orders(
            resting.drop_first(),
            taker,
            limit,
            (size - resting[0].size) as u64,
        );
        MatchOutcome {
            fills: seq![Fill { price: resting[0].price, size: resting[0].size }] + rest.fills,
            ..rest
        }
    }
}

/// An order that comes to rest adds its open shares to those of its side,
/// wherever it rests.
pub proof fn lemma_open_size_insert(orders: Seq<Order>, at: int, order: Order)
    requires
        0 <= at <= orders.len(),
    ensures
        open_size(orders.insert(at, order)) == open_size(orders) + order.size,
    decreases orders.len(),
{
    let rested = orders.insert(at, order);
    if at == 0 {
        assert(rested.drop_first() =~= orders);
    } else {
        lemma_open_size_insert(orders.drop_first(), at - 1, order);
        assert(rested.drop_first() =~= orders.drop_first().insert(at - 1, order));
    }
}

/// An order that leaves the book takes its open shares with it.
pub proof fn lemma_open_size_remove(orders: Seq<Order>, at: int)
    requires
        0 <= at < orders.len(),
    ensures
        open_size(orders.remove(at)) == open_size(orders) - orders[at].size,
    decreases orders.len(),
{
    if at > 0 {
        lemma_open_size_remove(orders.drop_first(), at - 1);
        assert(orders.remove(at).drop_first() =~= orders.drop_first().remove(at - 1));
    }
}

/// An incoming order is filled with all the shares on offer to it, up to its
/// size.
pub proof fn lemma_match_fills_what_crosses(resting: Seq<Order>, taker: Side, limit: u64, size: u64)
    ensures
        size - match_orders(resting, taker, limit, size).remaining == if size <= crossing_depth(
            resting,
            taker,
            limit,
        ) {
            size as int
        } else {
            crossing_depth(resting, taker, limit)
        },
        0 <= crossing_depth(resting, taker, limit),
    decreases resting.len(),
{
    if resting.len() == 0 || !crosses(taker, limit, resting[0].price) {
    } else {
        lemma_match_fills_what_crosses(resting.drop_first(), taker, limit, 0);
        if size >= resting[0].size {
            lemma_match_fills_what_crosses(
                resting.drop_first(),
                taker,
                limit,
                (size - resting[0].size) as u64,
            );
        }
    }
}

/// Matching neither creates nor loses shares: the fills add up to the part
/// of the incoming order that was matched, and the book gives up exactly as
/// many open shares.
pub proof fn lemma_match_conserves_shares(resting: Seq<Order>, taker: Side, limit: u64, size: u64)
    ensures
        ({
            let matched = match_orders(resting, taker, limit, size);
            &&& matched.remaining <= size
            &&& filled_size(matched.fills) == size - matched.remaining
            &&& open_size(matched.resting) + (size - matched.remaining) == open_size(resting)
        }),
    decreases resting.len(),
{
    let matched = match_orders(resting, taker, limit, size);
    if size == 0 || resting.len() == 0 || !crosses(taker, limit, resting[0].price) {
    } else if size < resting[0].size {
        assert(matched.resting.drop_first() =~= resting.drop_first());
        assert(matched.fills.drop_first() =~= Seq::<Fill>::empty());
        assert(filled_size(Seq::<Fill>::empty()) == 0);
    } else {
        let rest = match_orders(
            resting.drop_first(),
            taker,
            limit,
            (size - resting[0].size) as u64,
        );
        lemma_match_conserves_shares(
            resting.drop_first(),
            taker,
            limit,
            (size - resting[0].size) as u64,
        );
        assert(matched.fills.drop_first() =~= rest.fills);
    }
}

/// What matching leaves on the book is a tail of what was there: orders
/// leave from the front only, and only the first order left can have been
/// reduced, never to nothing if some of it was open.
pub proof fn lemma_match_leaves_a_tail(resting: Seq<Order>, taker: Side, limit: u64, size: u64)
    ensures
        ({
            let left = match_orders(resting, taker, limit, size).resting;
            let gone = resting.len() - left.len();
            &&& 0 <= gone <= resting.len()
            &&& forall|i: int| 0 < i < left.len() ==> #[trigger] left[i] == resting[gone + i]
            &&& left.len() > 0 ==> {
                &&& left[0] == Order { size: left[0].size, ..resting[gone] }
                &&& left[0].size <= resting[gone].size
                &&& resting[gone].size > 0 ==> left[0].size > 0
            }
        }),
    decreases resting.len(),
{
    if size == 0 || resting.len() == 0 || !crosses(taker, limit, resting[0].price) {
    } else if size < resting[0].size {
    } else {
        lemma_match_leaves_a_tail(
            resting.drop_first(),
            taker,
            limit,
            (size - resting[0].size) as u64,
        );
    }
}

/// Matching stops only when the incoming order is used up, the other side is
/// empty, or its best order no longer crosses the limit.
pub proof fn lemma_match_stops_at_limit(resting: Seq<Order>, taker: Side, limit: u64, size: u64)
    ensures
        ({
            let matched = match_orders(resting, taker, limit, size);
            matched.remaining > 0 ==> matched.resting.len() == 0 || !crosses(
                taker,
                limit,
                matched.resting[0].price,
            )
        }),
    decreases resting.len(),
{
    if size == 0 || resting.len() == 0 || !crosses(taker, limit, resting[0].price) {
    } else if size < resting[0].size {
    } else {
        lemma_match_stops_at_limit(
            resting.drop_first(),
            taker,
            limit,
            (size - resting[0].size) as u64,
        );
    }
}

/// Every fill is made at the price of the resting order it consumes, front
/// to back, for no more than that order has open, and at a price the taker
/// accepts: any difference to the limit is the taker's gain.
pub proof fn lemma_fills_at_maker_price(resting: Seq<Order>, taker: Side, limit: u64, size: u64)
    ensures
        ({
            let fills = match_orders(resting, taker, limit, size).fills;
            &&& fills.len() <= resting.len()
            &&& forall|j: int|
                0 <= j < fills.len() ==> {
                    &&& (#[trigger] fills[j]).price == resting[j].price
                    &&& fills[j].size <= resting[j].size
                    &&& fills[j].size <= size
                    &&& crosses(taker, limit, fills[j].price)
                }
        }),
    decreases resting.len(),
{
    if size == 0 || resting.len() == 0 || !crosses(taker, limit, resting[0].price) {
    } else if size < resting[0].size {
    } else {
        lemma_fills_at_maker_price(
            resting.drop_first(),
            taker,
            limit,
            (size - resting[0].size) as u64,
        );
    }
}

/// An incoming order that is matched against valid orders and fills nothing
/// leaves the other side as it was.
pub proof fn lemma_no_fill_leaves_book(resting: Seq<Order>, taker: Side, limit: u64, size: u64)
    requires
        all_valid(resting),
        match_orders(resting, taker, limit, size).remaining == size,
    ensures
        match_orders(resting, taker, limit, size).resting == resting,
        match_orders(resting, taker, limit, size).fills == Seq::<Fill>::empty(),
{
    if size > 0 && resting.len() > 0 && crosses(taker, limit, resting[0].price) && size
        >= resting[0].size {
        lemma_match_conserves_shares(
            resting.drop_first(),
            taker,
            limit,
            (size - resting[0].size) as u64,
        );
    }
}

/// Matching keeps a side of the book in order: valid orders stay valid, the
/// priority order stays, and the best price left is no better than the best
/// price there was.
pub proof fn lemma_match_keeps_order(
    resting: Seq<Order>,
    side: Side,
    taker: Side,
    limit: u64,
    size: u64,
)
    requires
        all_valid(resting),
        ranked(side, resting),
    ensures
        ({
            let left = match_orders(resting, taker, limit, size).resting;
            &&& left.len() <= resting.len()
            &&& all_valid(left)
            &&& ranked(side, left)
            &&& left.len() > 0 ==> !outranks(side, left[0].price, resting[0].price)
        }),
{
    lemma_match_leaves_a_tail(resting, taker, limit, size);
}

/// How many shares of an incoming order would be filled, without touching
/// the book.
pub fn matched_size(resting: &Vec<Order>, taker: Side, limit: u64, size: u64) -> (filled: u64)
    ensures
        filled == size - match_orders(resting@, taker, limit, size).remaining,
        filled <= size,
{
    let mut remaining: u64 = size;
    let mut i: usize = 0;
    assert(resting@.subrange(0, resting.len() as int) =~= resting@);
    while remaining > 0 && i < resting.len() && price_crosses(taker, limit, resting[i].price)
        invariant
            0 <= i <= resting.len(),
            remaining <= size,
            match_orders(
                resting@.subrange(i as int, resting.len() as int),
                taker,
                limit,
                remaining,
            ).remaining == match_orders(resting@, taker, limit, size).remaining,
        decreases resting.len() - i,
    {
        let available: u64 = resting[i].size;
        assert(resting@.subrange(i as int, resting.len() as int).drop_first()
            =~= resting@.subrange(i + 1, resting.len() as int));
        if remaining < available {
            remaining = 0;
        } else {
            remaining -= available;
        }
        i += 1;
    }
    size - remaining
}

/// Fills an incoming order against the resting orders of the other side and
/// returns what remains of it and the fills made.
pub fn fill_against(resting: &mut Vec<Order>, taker: Side, limit: u64, size: u64) -> (out: (
    u64,
    Vec<Fill>,
))
    ensures
        final(resting)@ == match_orders(old(resting)@, taker, limit, size).resting,
        out.0 == match_orders(old(resting)@, taker, limit, size).remaining,
        out.1@ == match_orders(old(resting)@, taker, limit, size).fills,
{
    let mut remaining: u64 = size;
    let mut fills: Vec<Fill> = Vec::new();
    let ghost goal = match_orders(old(resting)@, taker, limit, size);
    while remaining > 0 && resting.len() > 0 && price_crosses(taker, limit, resting[0].price)
        invariant
            match_orders(resting@, taker, limit, remaining).resting == goal.resting,
            match_orders(resting@, taker, limit, remaining).remaining == goal.remaining,
            fills@ + match_orders(resting@, taker, limit, remaining).fills =~= goal.fills,
        decreases remaining, resting.len(),
    {
        let best: Order = resting[0];
        if remaining < best.size {
            resting.set(0, Order { size: best.size - remaining, ..best });
            fills.push(Fill { price: best.price, size: remaining });
            remaining = 0;
        } else {
            resting.remove(0);
            fills.push(Fill { price: best.price, size: best.size });
            remaining -= best.size;
        }
    }
    (remaining, fills)
}

} // verus!
