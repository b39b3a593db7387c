//! Trading on the order book: placing an order, which fills what crosses
//! and rests what is left, and canceling a resting order.

use crate::book::{
    lemma_rest_index_is_first_outranked, lemma_rest_keeps_order, rest_index, resting_index,
    OrderBook, OrderBookView,
};
use crate::clob::{ClobMarket, ClobMarketView, ClobPosition};
use crate::error::ClobError;
use crate::identity::Identity;
use crate::matching::{
    fill_against, filled_size, lemma_fills_at_maker_price, lemma_match_conserves_shares,
    lemma_match_keeps_order, lemma_match_stops_at_limit, lemma_no_fill_leaves_book,
    lemma_open_size_insert, lemma_open_size_remove, match_orders, matched_size, open_size,
};
use crate::orders::{
    collateral, crosses, lemma_collateral_splits, normalize, normalized, ranked,
    required_collateral, valid_price, Fill, Order, Side, BPS_MAX, MAX_ORDERS,
};
use vstd::prelude::*;

verus! {

/// The receipt of a placed order.
#[derive(Clone, Debug, PartialEq, Eq)]
pub struct Placement {
    /// The collateral escrowed for the whole order, which the caller moves
    /// from the trader into the market's custody.
    pub collateral: u64,
    /// Shares filled on arrival.
    pub filled: u64,
    /// Shares left resting on the book.
    pub resting: u64,
    /// The fills made on arrival, in order, each at the maker's price.
    pub fills: Vec<Fill>,
}

/// A receipt as a mathematical value.
pub struct PlacementView {
    pub collateral: u64,
    pub filled: u64,
    pub resting: u64,
    pub fills: Seq<Fill>,
}

impl View for Placement {
    type V = PlacementView;

    open spec fn view(&self) -> PlacementView {
        PlacementView {
            collateral: self.collateral,
            filled: self.filled,
            resting: self.resting,
            fills: self.fills@,
        }
    }
}

/// The records after an incoming order has been matched.
pub struct Matched {
    pub book: OrderBookView,
    pub position: ClobPosition,
    /// The part of the incoming order that found no counterparty.
    pub remaining: u64,
    pub fills: Seq<Fill>,
}

/// The records after an order has been placed.
pub struct Placed {
    pub book: OrderBookView,
    pub position: ClobPosition,
    pub receipt: PlacementView,
}

/// The records after an order has been canceled.
pub struct Canceled {
    pub book: OrderBookView,
    /// The collateral handed back to the owner.
    pub refund: u64,
}

/// What matching an incoming order on side `taker` does: the other side of
/// the book gives up the shares filled and the taker's position is credited
/// with them, or the instruction is rejected because the balance cannot hold
/// them.
pub open spec fn spec_match_against(
    book: OrderBookView,
    position: ClobPosition,
    taker: Side,
    limit: u64,
    size: u64,
) -> Result<Matched, ClobError> {
    let matched = match_orders(book.side(taker.opposite()), taker, limit, size);
    let filled = (size - matched.remaining) as u64;
    if position.shares(taker) + filled > u64::MAX {
        Err(ClobError::Overflow)
    } else {
        Ok(
            Matched {
                book: book.with_side(taker.opposite(), matched.resting),
                position: position.credited(taker, filled),
                remaining: matched.remaining,
                fills: matched.fills,
            },
        )
    }
}

/// Why an order is turned away before it reaches the book, if it is: the
/// price is judged first, then the size, then whether the market is resolved,
/// then whether its deadline has passed.
pub open spec fn order_rejection(market: ClobMarketView, now: i64, price: u64, size: u64)
    -> Option<ClobError> {
    if !valid_price(price) {
        Some(ClobError::InvalidPrice)
    } else if size == 0 {
        Some(ClobError::InvalidSize)
    } else if market.resolved {
        Some(ClobError::MarketResolved)
    } else if now >= market.resolution_time {
        Some(ClobError::MarketExpired)
    } else {
        None
    }
}

/// The identifier of an order placed at time `now`: the time on the clock,
/// read as an unsigned number of 64 bits, so that a time before the epoch
/// counts down from the top.
pub open spec fn order_id_at(now: i64) -> u64 {
    if now >= 0 {
        now as u64
    } else {
        (now + 0x1_0000_0000_0000_0000) as u64
    }
}

/// Reads the time on the clock as an order identifier.
pub fn order_id(now: i64) -> (id: u64)
    ensures
        id == order_id_at(now),
{
    let id: u64 = #[verifier::truncate]
    (now as u64);
    assert(now >= 0 ==> id == now) by (bit_vector)
        requires
            id == now as u64,
    ;
    assert(now < 0 ==> id == now + 0x1_0000_0000_0000_0000) by (bit_vector)
        requires
            id == now as u64,
    ;
    id
}

/// The orders of one side with a new order at rest among them.
pub open spec fn rested(orders: Seq<Order>, side: Side, order: Order) -> Seq<Order> {
    orders.insert(rest_index(orders, side, order.price), order)
}

/// An order as a trader hands it in.
pub struct OrderRequest {
    /// The market the order is for.
    pub market_key: Identity,
    pub trader: Identity,
    /// The time of arrival.
    pub now: i64,
    /// 0 to buy, anything else to sell.
    pub side: u8,
    /// Whether the order is for YES shares, or else for NO shares.
    pub is_yes: bool,
    /// Price in basis points.
    pub price: u64,
    pub size: u64,
}

impl OrderRequest {
    /// The side of the order in its YES-denominated form.
    pub open spec fn taker(self) -> Side {
        normalized(Side::of_code(self.side), self.is_yes, self.price).0
    }

    /// The limit price of the order in its YES-denominated form.
    pub open spec fn limit(self) -> u64 {
        normalized(Side::of_code(self.side), self.is_yes, self.price).1
    }

    /// The collateral the order escrows.
    pub open spec fn escrow(self) -> int {
        collateral(self.taker(), self.limit(), self.size)
    }

    /// The order that rests when `remaining` shares of it are not filled.
    pub open spec fn resting_order(self, remaining: u64) -> Order {
        Order {
            owner: self.trader,
            price: self.limit(),
            size: remaining,
            timestamp: self.now,
            order_id: order_id_at(self.now),
        }
    }
}

/// What placing an order does: the records afterwards and the receipt, or
/// the rejection.
///
/// An order that passes validation is put into its YES-denominated form
/// and escrows its collateral. It is then matched against the other
/// side of the book, and the fills are credited to the trader's position,
/// which is opened if need be. What is not filled comes to rest on the
/// order's own side, stamped with the time of arrival.
pub open spec fn spec_place_order(
    market: ClobMarketView,
    book: OrderBookView,
    position: ClobPosition,
    request: OrderRequest,
) -> Result<Placed, ClobError> {
    let taker = request.taker();
    if let Some(rejection) = order_rejection(market, request.now, request.price, request.size) {
        Err(rejection)
    } else if request.escrow() > u64::MAX {
        Err(ClobError::Overflow)
    } else {
        match spec_match_against(
            book,
            position.opened(request.market_key, request.trader),
            taker,
            request.limit(),
            request.size,
        ) {
            Err(rejection) => Err(rejection),
            Ok(matched) => {
                if matched.remaining > 0 && book.side(taker).len() >= MAX_ORDERS {
                    Err(ClobError::OrderBookFull)
                } else {
                    Ok(
                        Placed {
                            book: if matched.remaining > 0 {
                                matched.book.with_side(
                                    taker,
                                    rested(
                                        book.side(taker),
                                        taker,
                                        request.resting_order(matched.remaining),
                                    ),
                                )
                            } else {
                                matched.book
                            },
                            position: matched.position,
                            receipt: PlacementView {
                                collateral: request.escrow() as u64,
                                filled: (request.size - matched.remaining) as u64,
                                resting: matched.remaining,
                                fills: matched.fills,
                            },
                        },
                    )
                }
            },
        }
    }
}

/// What canceling the resting order at `order_index` of the bids or the asks
/// does: the book without the order and the refund of the collateral of its
/// open shares, or the rejection.
pub open spec fn spec_cancel_order(
    book: OrderBookView,
    trader: Identity,
    is_bid: bool,
    order_index: u8,
) -> Result<Canceled, ClobError> {
    let side = if is_bid {
        Side::Bid
    } else {
        Side::Ask
    };
    let orders = book.side(side);
    if order_index >= orders.len() {
        Err(ClobError::InvalidOrderIndex)
    } else {
        let order = orders[order_index as int];
        if order.owner != trader {
            Err(ClobError::NotOrderOwner)
        } else if collateral(side, order.price, order.size) > u64::MAX {
            Err(ClobError::Overflow)
        } else {
            Ok(
                Canceled {
                    book: book.with_side(side, orders.remove(order_index as int)),
                    refund: collateral(side, order.price, order.size) as u64,
                },
            )
        }
    }
}

/// Matching keeps the book in order: the side that is matched against loses
/// orders from its front only, so that it stays in priority and moves away
/// from the other side.
pub proof fn lemma_match_keeps_book(
    book: OrderBookView,
    position: ClobPosition,
    taker: Side,
    limit: u64,
    size: u64,
)
    requires
        book.wf(),
    ensures
        spec_match_against(book, position, taker, limit, size) matches Ok(matched)
            ==> matched.book.wf(),
{
    lemma_match_keeps_order(book.side(taker.opposite()), taker.opposite(), taker, limit, size);
}

/// A resolved market takes no more orders, and neither does one whose
/// deadline has passed.
pub proof fn lemma_closed_market_takes_no_orders(
    market: ClobMarketView,
    book: OrderBookView,
    position: ClobPosition,
    request: OrderRequest,
)
    requires
        market.resolved || request.now >= market.resolution_time,
    ensures
        spec_place_order(market, book, position, request) is Err,
{
}

/// Placing an order keeps the book in order: both sides stay within bounds
/// and in matching priority, bids non-increasing and asks non-decreasing in
/// price, and the best bid stays below the best ask once matching has
/// settled.
pub proof fn lemma_place_order_keeps_book(
    market: ClobMarketView,
    book: OrderBookView,
    position: ClobPosition,
    request: OrderRequest,
)
    requires
        book.wf(),
    ensures
        spec_place_order(market, book, position, request) matches Ok(placed) ==> placed.book.wf(),
{
    let taker = request.taker();
    let limit = request.limit();
    let outcome = spec_place_order(market, book, position, request);
    if outcome is Ok {
        let other = book.side(taker.opposite());
        let matched = match_orders(other, taker, limit, request.size);
        lemma_match_keeps_order(other, taker.opposite(), taker, limit, request.size);
        lemma_match_stops_at_limit(other, taker, limit, request.size);
        if matched.remaining > 0 {
            lemma_rest_keeps_order(
                book.side(taker),
                taker,
                request.resting_order(matched.remaining),
            );
        }
    }
}

/// Placing an order accounts for every share of it. Each share is either
/// filled or left resting; the fills add up to the shares filled, each made
/// at the price of a resting order that the limit accepts; the trader's
/// balance grows by the shares filled and by no more, and the other balance
/// stays; the other side of the book gives up as many open shares as were
/// filled, and the order's own side gains those that rest.
pub proof fn lemma_place_order_accounts_for_shares(
    market: ClobMarketView,
    book: OrderBookView,
    position: ClobPosition,
    request: OrderRequest,
)
    requires
        spec_place_order(market, book, position, request) is Ok,
    ensures
        ({
            let placed = spec_place_order(market, book, position, request)->Ok_0;
            let opened = position.opened(request.market_key, request.trader);
            let taker = request.taker();
            let receipt = placed.receipt;
            &&& receipt.filled + receipt.resting == request.size
            &&& filled_size(receipt.fills) == receipt.filled
            &&& forall|j: int|
                0 <= j < receipt.fills.len() ==> crosses(
                    taker,
                    request.limit(),
                    (#[trigger] receipt.fills[j]).price,
                ) && receipt.fills[j].price == book.side(taker.opposite())[j].price
            &&& placed.position.shares(taker) == opened.shares(taker) + receipt.filled
            &&& placed.position.shares(taker.opposite()) == opened.shares(taker.opposite())
            &&& placed.position.owner == opened.owner
            &&& open_size(placed.book.side(taker.opposite())) + receipt.filled == open_size(
                book.side(taker.opposite()),
            )
            &&& open_size(placed.book.side(taker)) == open_size(book.side(taker))
                + receipt.resting
        }),
{
    let taker = request.taker();
    let limit = request.limit();
    let own = book.side(taker);
    let other = book.side(taker.opposite());
    let matched = match_orders(other, taker, limit, request.size);
    lemma_match_conserves_shares(other, taker, limit, request.size);
    lemma_fills_at_maker_price(other, taker, limit, request.size);
    if matched.remaining > 0 {
        lemma_rest_index_is_first_outranked(own, taker, limit);
        lemma_open_size_insert(
            own,
            rest_index(own, taker, limit),
            request.resting_order(matched.remaining),
        );
    }
}

/// Canceling an order takes its open shares off its side of the book and
/// leaves the other side alone.
pub proof fn lemma_cancel_order_accounts_for_shares(
    book: OrderBookView,
    trader: Identity,
    is_bid: bool,
    order_index: u8,
)
    requires
        book.wf(),
        spec_cancel_order(book, trader, is_bid, order_index) is Ok,
    ensures
        ({
            let canceled = spec_cancel_order(book, trader, is_bid, order_index)->Ok_0;
            let side = if is_bid {
                Side::Bid
            } else {
                Side::Ask
            };
            let order = book.side(side)[order_index as int];
            &&& canceled.refund == collateral(side, order.price, order.size)
            &&& open_size(canceled.book.side(side)) == open_size(book.side(side)) - order.size
            &&& canceled.book.side(side.opposite()) == book.side(side.opposite())
        }),
{
    let side = if is_bid {
        Side::Bid
    } else {
        Side::Ask
    };
    let order = book.side(side)[order_index as int];
    lemma_collateral_splits(side, order.price, 0, order.size);
    lemma_open_size_remove(book.side(side), order_index as int);
}

/// Canceling an order keeps the book in order.
pub proof fn lemma_cancel_order_keeps_book(
    book: OrderBookView,
    trader: Identity,
    is_bid: bool,
    order_index: u8,
)
    requires
        book.wf(),
    ensures
        spec_cancel_order(book, trader, is_bid, order_index) matches Ok(canceled)
            ==> canceled.book.wf(),
{
}

/// Whether `after` is what some instruction can leave of the book `before`:
/// the book after an order was placed or canceled, or the same book after a
/// rejection.
pub open spec fn trading_step(before: OrderBookView, after: OrderBookView) -> bool {
    ||| after == before
    ||| exists|market: ClobMarketView, position: ClobPosition, request: OrderRequest|
        #[trigger] spec_place_order(market, before, position, request) matches Ok(placed)
            && placed.book == after
    ||| exists|trader: Identity, is_bid: bool, order_index: u8|
        #[trigger] spec_cancel_order(before, trader, is_bid, order_index) matches Ok(canceled)
            && canceled.book == after
}

/// Whether each book of the list is what an instruction leaves of the one
/// before.
pub open spec fn trading_history(books: Seq<OrderBookView>) -> bool {
    forall|k: int| 0 <= k < books.len() - 1 ==> trading_step(#[trigger] books[k], books[k + 1])
}

/// At any point of trading the book is in order: through any sequence of
/// orders placed and canceled, by whomever and whether accepted or not, the
/// bids stay non-increasing and the asks non-decreasing in price, and the
/// best bid stays below the best ask.
pub proof fn lemma_book_stays_in_order(books: Seq<OrderBookView>, k: int)
    requires
        books.len() > 0,
        books[0].wf(),
        trading_history(books),
        0 <= k < books.len(),
    ensures
        books[k].wf(),
        ranked(Side::Bid, books[k].yes_bids),
        ranked(Side::Ask, books[k].yes_asks),
        books[k].uncrossed(),
    decreases k,
{
    if k > 0 {
        lemma_book_stays_in_order(books, k - 1);
        let before = books[k - 1];
        let after = books[k];
        assert(trading_step(before, after));
        if after == before {
        } else if exists|market: ClobMarketView, position: ClobPosition, request: OrderRequest|
            #[trigger] spec_place_order(market, before, position, request) matches Ok(placed)
                && placed.book == after {
            let (market, position, request) = choose|
                market: ClobMarketView,
                position: ClobPosition,
                request: OrderRequest,
            |
                #[trigger] spec_place_order(market, before, position, request) matches Ok(placed)
                    && placed.book == after;
            lemma_place_order_keeps_book(market, before, position, request);
        } else {
            let (trader, is_bid, order_index) = choose|
                trader: Identity,
                is_bid: bool,
                order_index: u8,
            |
                #[trigger] spec_cancel_order(before, trader, is_bid, order_index) matches Ok(
                    canceled,
                ) && canceled.book == after;
            lemma_cancel_order_keeps_book(before, trader, is_bid, order_index);
        }
    }
}

/// An order that rests whole and is canceled before any fill gets back
/// exactly the collateral it escrowed, no more and no less, and leaves the
/// book as it was before the order came.
pub proof fn lemma_cancel_refunds_escrow(
    market: ClobMarketView,
    book: OrderBookView,
    position: ClobPosition,
    request: OrderRequest,
)
    requires
        book.wf(),
        spec_place_order(market, book, position, request) matches Ok(placed)
            && placed.receipt.filled == 0,
    ensures
        ({
            let placed = spec_place_order(market, book, position, request)->Ok_0;
            let taker = request.taker();
            let at = rest_index(book.side(taker), taker, request.limit());
            &&& 0 <= at < MAX_ORDERS
            &&& spec_cancel_order(placed.book, request.trader, taker == Side::Bid, at as u8)
                matches Ok(canceled)
            &&& canceled.refund == placed.receipt.collateral
            &&& canceled.book == book
        }),
{
    let taker = request.taker();
    let limit = request.limit();
    let own = book.side(taker);
    let other = book.side(taker.opposite());
    let at = rest_index(own, taker, limit);
    lemma_rest_index_is_first_outranked(own, taker, limit);
    lemma_match_conserves_shares(other, taker, limit, request.size);
    lemma_no_fill_leaves_book(other, taker, limit, request.size);
    assert(own.insert(at, request.resting_order(request.size)).remove(at) =~= own);
}

/// An order that is canceled right after it was placed gets back the
/// collateral of its open shares: the collateral of the shares filled on
/// arrival stays in escrow.
pub proof fn lemma_cancel_refunds_open_part(
    market: ClobMarketView,
    book: OrderBookView,
    position: ClobPosition,
    request: OrderRequest,
)
    requires
        spec_place_order(market, book, position, request) matches Ok(placed)
            && placed.receipt.resting > 0,
    ensures
        ({
            let placed = spec_place_order(market, book, position, request)->Ok_0;
            let taker = request.taker();
            let at = rest_index(book.side(taker), taker, request.limit());
            &&& 0 <= at < MAX_ORDERS
            &&& spec_cancel_order(placed.book, request.trader, taker == Side::Bid, at as u8)
                matches Ok(canceled)
            &&& canceled.refund + collateral(taker, request.limit(), placed.receipt.filled)
                == placed.receipt.collateral
        }),
{
    let taker = request.taker();
    let limit = request.limit();
    let own = book.side(taker);
    let other = book.side(taker.opposite());
    lemma_rest_index_is_first_outranked(own, taker, limit);
    lemma_match_conserves_shares(other, taker, limit, request.size);
    let matched = match_orders(other, taker, limit, request.size);
    lemma_collateral_splits(
        taker,
        limit,
        (request.size - matched.remaining) as u64,
        matched.remaining,
    );
}

/// Matches an incoming bid of `size` shares at up to `max_price` against
/// the asks and credits the fills to the YES balance of the position.
/// Returns what remains of the bid and the fills. Rejects with `Overflow`,
/// before anything is changed, when the balance cannot hold the shares.
pub fn match_against_asks(
    order_book: &mut OrderBook,
    position: &mut ClobPosition,
    max_price: u64,
    size: u64,
) -> (result: Result<(u64, Vec<Fill>), ClobError>)
    ensures
        ({
            let expected = spec_match_against(
                old(order_book)@,
                *old(position),
                Side::Bid,
                max_price,
                size,
            );
            match result {
                Ok(matched) => {
                    &&& expected matches Ok(after)
                    &&& after.book == final(order_book)@
                    &&& after.position == *final(position)
                    &&& after.remaining == matched.0
                    &&& after.fills == matched.1@
                },
                Err(e) => {
                    &&& expected matches Err(rejection)
                    &&& rejection == e
                    &&& *final(order_book) == *old(order_book)
                    &&& *final(position) == *old(position)
                },
            }
        }),
        old(order_book)@.wf() ==> final(order_book)@.wf(),
{
    proof {
        if old(order_book)@.wf() {
            lemma_match_keeps_book(old(order_book)@, *old(position), Side::Bid, max_price, size);
        }
    }
    let filled: u64 = matched_size(&order_book.yes_asks, Side::Bid, max_price, size);
    let credited: u64 = match position.yes_shares.checked_add(filled) {
        Some(shares) => shares,
        None => { return Err(ClobError::Overflow); },
    };
    let matched = fill_against(&mut order_book.yes_asks, Side::Bid, max_price, size);
    position.yes_shares = credited;
    Ok(matched)
}

/// Matches an incoming ask of `size` shares at no less than `min_price`
/// against the bids and credits the fills to the NO balance of the position.
/// Returns what remains of the ask and the fills. Rejects with `Overflow`,
/// before anything is changed, when the balance cannot hold the shares.
pub fn match_against_bids(
    order_book: &mut OrderBook,
    position: &mut ClobPosition,
    min_price: u64,
    size: u64,
) -> (result: Result<(u64, Vec<Fill>), ClobError>)
    ensures
        ({
            let expected = spec_match_against(
                old(order_book)@,
                *old(position),
                Side::Ask,
                min_price,
                size,
            );
            match result {
                Ok(matched) => {
                    &&& expected matches Ok(after)
                    &&& after.book == final(order_book)@
                    &&& after.position == *final(position)
                    &&& after.remaining == matched.0
                    &&& after.fills == matched.1@
                },
                Err(e) => {
                    &&& expected matches Err(rejection)
                    &&& rejection == e
                    &&& *final(order_book) == *old(order_book)
                    &&& *final(position) == *old(position)
                },
            }
        }),
        old(order_book)@.wf() ==> final(order_book)@.wf(),
{
    proof {
        if old(order_book)@.wf() {
            lemma_match_keeps_book(old(order_book)@, *old(position), Side::Ask, min_price, size);
        }
    }
    let filled: u64 = matched_size(&order_book.yes_bids, Side::Ask, min_price, size);
    let credited: u64 = match position.no_shares.checked_add(filled) {
        Some(shares) => shares,
        None => { return Err(ClobError::Overflow); },
    };
    let matched = fill_against(&mut order_book.yes_bids, Side::Ask, min_price, size);
    position.no_shares = credited;
    Ok(matched)
}

/// Places an order for `size` shares of YES (`is_yes`) or NO at `price`
/// basis points, to buy (`side` 0) or to sell (any other `side`), at time
/// `now`.
///
/// The order is rejected with `InvalidPrice` unless the price is within 1 to
/// 9999, else with `InvalidSize` if the size is zero, else with
/// `MarketResolved` if the market is resolved, else with `MarketExpired`
/// unless `now` is before the deadline. It is then put into its
/// YES-denominated form; `Overflow` rejects an order whose collateral, or
/// whose fills on top of the trader's balance, do not fit an amount, and
/// `OrderBookFull` one that would have to rest on a side that holds 50
/// orders. A rejected order leaves the book and the position as they were.
///
/// An accepted order is filled against the other side at the makers' prices,
/// the fills are credited to the position, and the rest of it comes to rest
/// behind the orders at its price. The receipt names the collateral that
/// the caller has to escrow for the trader.
pub fn place_order(
    market: &ClobMarket,
    order_book: &mut OrderBook,
    position: &mut ClobPosition,
    market_key: Identity,
    trader: Identity,
    now: i64,
    side: u8,
    is_yes: bool,
    price: u64,
    size: u64,
) -> (result: Result<Placement, ClobError>)
    ensures
        ({
            let expected = spec_place_order(
                market@,
                old(order_book)@,
                *old(position),
                OrderRequest { market_key, trader, now, side, is_yes, price, size },
            );
            match result {
                Ok(receipt) => {
                    &&& expected matches Ok(placed)
                    &&& placed.book == final(order_book)@
                    &&& placed.position == *final(position)
                    &&& placed.receipt == receipt@
                },
                Err(e) => {
                    &&& expected matches Err(rejection)
                    &&& rejection == e
                    &&& *final(order_book) == *old(order_book)
                    &&& *final(position) == *old(position)
                },
            }
        }),
        old(order_book)@.wf() ==> final(order_book)@.wf(),
{
    if price == 0 || price >= BPS_MAX {
        return Err(ClobError::InvalidPrice);
    }
    if size == 0 {
        return Err(ClobError::InvalidSize);
    }
    if market.resolved {
        return Err(ClobError::MarketResolved);
    }
    if now >= market.resolution_time {
        return Err(ClobError::MarketExpired);
    }
    let (taker, limit) = normalize(Side::from_code(side), is_yes, price);
    let escrow: u64 = match required_collateral(taker, limit, size) {
        Ok(amount) => amount,
        Err(_) => { return Err(ClobError::Overflow); },
    };
    let opened: ClobPosition = if position.owner.check_unset() {
        ClobPosition { owner: trader, market: market_key, yes_shares: 0, no_shares: 0 }
    } else {
        *position
    };
    // Whatever can still reject the order is settled before a record changes.
    let filled: u64 = match taker {
        Side::Bid => matched_size(&order_book.yes_asks, taker, limit, size),
        Side::Ask => matched_size(&order_book.yes_bids, taker, limit, size),
    };
    let held: u64 = match taker {
        Side::Bid => opened.yes_shares,
        Side::Ask => opened.no_shares,
    };
    if held.checked_add(filled).is_none() {
        return Err(ClobError::Overflow);
    }
    let resting_orders: usize = match taker {
        Side::Bid => order_book.yes_bids.len(),
        Side::Ask => order_book.yes_asks.len(),
    };
    if size - filled > 0 && resting_orders >= MAX_ORDERS {
        return Err(ClobError::OrderBookFull);
    }
    proof {
        if old(order_book)@.wf() {
            lemma_place_order_keeps_book(
                market@,
                old(order_book)@,
                *old(position),
                OrderRequest { market_key, trader, now, side, is_yes, price, size },
            );
        }
    }
    *position = opened;
    let matched = match taker {
        Side::Bid => match_against_asks(order_book, position, limit, size),
        Side::Ask => match_against_bids(order_book, position, limit, size),
    };
    let (remaining, fills) = match matched {
        Ok(matched) => matched,
        Err(e) => { return Err(e); },
    };
    if remaining > 0 {
        let order = Order {
            owner: trader,
            price: limit,
            size: remaining,
            timestamp: now,
            order_id: order_id(now),
        };
        match taker {
            Side::Bid => {
                let at: usize = resting_index(&order_book.yes_bids, Side::Bid, limit);
                order_book.yes_bids.insert(at, order);
            },
            Side::Ask => {
                let at: usize = resting_index(&order_book.yes_asks, Side::Ask, limit);
                order_book.yes_asks.insert(at, order);
            },
        }
    }
    Ok(Placement { collateral: escrow, filled: size - remaining, resting: remaining, fills })
}

/// Cancels the resting order at `order_index` of the bids (`is_bid`) or the
/// asks, whole, and returns the refund: the collateral of its open shares,
/// which the caller hands back to the owner. Rejects an index that names no
/// order with `InvalidOrderIndex`, else a trader who does not own the order
/// with `NotOrderOwner`, else a refund that does not fit an amount with
/// `Overflow`; a rejected cancellation leaves the book as it was.
pub fn cancel_order(
    order_book: &mut OrderBook,
    trader: Identity,
    is_bid: bool,
    order_index: u8,
) -> (result: Result<u64, ClobError>)
    requires
        old(order_book)@.wf(),
    ensures
        ({
            let expected = spec_cancel_order(old(order_book)@, trader, is_bid, order_index);
            match result {
                Ok(refund) => {
                    &&& expected matches Ok(canceled)
                    &&& canceled.book == final(order_book)@
                    &&& canceled.refund == refund
                },
                Err(e) => {
                    &&& expected matches Err(rejection)
                    &&& rejection == e
                    &&& *final(order_book) == *old(order_book)
                },
            }
        }),
        final(order_book)@.wf(),
{
    let index: usize = order_index as usize;
    let side: Side = if is_bid {
        Side::Bid
    } else {
        Side::Ask
    };
    let count: usize = match side {
        Side::Bid => order_book.yes_bids.len(),
        Side::Ask => order_book.yes_asks.len(),
    };
    if index >= count {
        return Err(ClobError::InvalidOrderIndex);
    }
    let order: Order = match side {
        Side::Bid => order_book.yes_bids[index],
        Side::Ask => order_book.yes_asks[index],
    };
    if order.owner != trader {
        return Err(ClobError::NotOrderOwner);
    }
    let refund: u64 = match required_collateral(side, order.price, order.size) {
        Ok(amount) => amount,
        Err(_) => { return Err(ClobError::Overflow); },
    };
    proof {
        lemma_cancel_order_keeps_book(old(order_book)@, trader, is_bid, order_index);
    }
    match side {
        Side::Bid => {
            order_book.yes_bids.remove(index);
        },
        Side::Ask => {
            order_book.yes_asks.remove(index);
        },
    }
    Ok(refund)
}

} // verus!
