use agentbets::book::{resting_index, side_in_order, OrderBook};
use agentbets::clob::{create_clob_market, ClobMarket, ClobPosition};
use agentbets::error::ClobError;
use agentbets::identity::Identity;
use agentbets::orders::{Fill, Order, Side};
use agentbets::trading::{
    cancel_order, match_against_asks, match_against_bids, order_id, place_order, Placement,
};

const DEADLINE: i64 = 2_000;
const NOW: i64 = 1_000;
const BID: u8 = 0;
const ASK: u8 = 1;

fn id(byte: u8) -> Identity {
    Identity { bytes: [byte; 32] }
}

fn market_key() -> Identity {
    id(200)
}

fn open_market() -> (ClobMarket, OrderBook) {
    let question = "Will it rain?".to_string();
    create_clob_market(id(1), market_key(), "rain".to_string(), question, DEADLINE).unwrap()
}

fn order(owner: u8, price: u64, size: u64) -> Order {
    Order { owner: id(owner), price, size, timestamp: NOW, order_id: NOW as u64 }
}

fn book_of(bids: Vec<Order>, asks: Vec<Order>) -> OrderBook {
    OrderBook { market: market_key(), yes_bids: bids, yes_asks: asks }
}

fn holding(owner: u8, yes: u64, no: u64) -> ClobPosition {
    ClobPosition { owner: id(owner), market: market_key(), yes_shares: yes, no_shares: no }
}

fn prices(orders: &[Order]) -> Vec<u64> {
    orders.iter().map(|o| o.price).collect()
}

fn place(
    market: &ClobMarket,
    book: &mut OrderBook,
    position: &mut ClobPosition,
    trader: u8,
    side: u8,
    is_yes: bool,
    price: u64,
    size: u64,
) -> Result<Placement, ClobError> {
    place_order(market, book, position, market_key(), id(trader), NOW, side, is_yes, price, size)
}

#[test]
fn bid_fills_against_a_cheaper_ask_at_the_makers_price() {
    let (market, mut book) = open_market();
    let mut maker = ClobPosition::unopened();
    let mut taker = ClobPosition::unopened();
    let rested = place(&market, &mut book, &mut maker, 2, ASK, true, 5500, 4).unwrap();
    assert_eq!(rested.filled, 0);
    assert_eq!(rested.resting, 4);

    let receipt = place(&market, &mut book, &mut taker, 3, BID, true, 6000, 10).unwrap();
    assert_eq!(receipt.fills, vec![Fill { price: 5500, size: 4 }]);
    assert_eq!(receipt.filled, 4);
    assert_eq!(receipt.resting, 6);
    assert_eq!(receipt.collateral, 60_000);
    assert!(book.yes_asks.is_empty());
    assert_eq!(book.yes_bids, vec![order(3, 6000, 6)]);
    assert_eq!(taker.yes_shares, 4);
    assert_eq!(taker.no_shares, 0);
    assert_eq!(taker.owner, id(3));
    assert_eq!(taker.market, market_key());
    // The maker's position is not touched by the fill.
    assert_eq!(maker, holding(2, 0, 0));
}

#[test]
fn ask_fills_against_a_dearer_bid_and_earns_no_shares() {
    let (market, mut book) = open_market();
    let mut maker = ClobPosition::unopened();
    let mut taker = holding(3, 1, 2);
    place(&market, &mut book, &mut maker, 2, BID, true, 6000, 10).unwrap();
    let receipt = place(&market, &mut book, &mut taker, 3, ASK, true, 5500, 4).unwrap();
    assert_eq!(receipt.fills, vec![Fill { price: 6000, size: 4 }]);
    assert_eq!(receipt.filled, 4);
    assert_eq!(receipt.resting, 0);
    assert_eq!(receipt.collateral, 4500 * 4);
    assert_eq!(book.yes_bids, vec![order(2, 6000, 6)]);
    assert!(book.yes_asks.is_empty());
    assert_eq!(taker, holding(3, 1, 6));
}

#[test]
fn an_order_that_crosses_nothing_rests_whole() {
    let (market, mut book) = open_market();
    let mut position = ClobPosition::unopened();
    let receipt = place(&market, &mut book, &mut position, 2, BID, true, 4000, 5).unwrap();
    assert_eq!(
        receipt,
        Placement { collateral: 20_000, filled: 0, resting: 5, fills: vec![] }
    );
    assert_eq!(book.yes_bids, vec![order(2, 4000, 5)]);
    assert_eq!(position, holding(2, 0, 0));
    let receipt = place(&market, &mut book, &mut position, 2, ASK, true, 4001, 5).unwrap();
    assert_eq!(
        receipt,
        Placement { collateral: 5999 * 5, filled: 0, resting: 5, fills: vec![] }
    );
    assert_eq!(book.yes_asks, vec![order(2, 4001, 5)]);
    assert_eq!(book.yes_bids, vec![order(2, 4000, 5)]);
}

#[test]
fn a_no_order_is_booked_as_a_yes_order_on_the_other_side() {
    let (market, mut book) = open_market();
    let mut position = ClobPosition::unopened();
    // Buying NO at 4000 rests as an ask for YES at 6000.
    let receipt = place(&market, &mut book, &mut position, 2, BID, false, 4000, 3).unwrap();
    assert_eq!(receipt.collateral, 12_000);
    assert_eq!(book.yes_asks, vec![order(2, 6000, 3)]);
    assert!(book.yes_bids.is_empty());
    // Selling NO at 7000 is a bid for YES at 3000.
    let receipt = place(&market, &mut book, &mut position, 2, ASK, false, 7000, 2).unwrap();
    assert_eq!(receipt.collateral, 6_000);
    assert_eq!(book.yes_bids, vec![order(2, 3000, 2)]);
}

#[test]
fn a_no_bid_takes_bids_and_earns_no_shares() {
    let (market, mut book) = open_market();
    let mut maker = ClobPosition::unopened();
    let mut taker = ClobPosition::unopened();
    place(&market, &mut book, &mut maker, 2, BID, true, 6000, 5).unwrap();
    // NO at 4500 is YES at 5500 for sale: the bid at 6000 takes it.
    let receipt = place(&market, &mut book, &mut taker, 3, BID, false, 4500, 2).unwrap();
    assert_eq!(receipt.fills, vec![Fill { price: 6000, size: 2 }]);
    assert_eq!(taker, holding(3, 0, 2));
    assert_eq!(book.yes_bids, vec![order(2, 6000, 3)]);
}

#[test]
fn any_side_code_but_zero_is_an_ask() {
    let (market, mut book) = open_market();
    let mut position = ClobPosition::unopened();
    place(&market, &mut book, &mut position, 2, 7, true, 5000, 1).unwrap();
    assert_eq!(book.yes_asks, vec![order(2, 5000, 1)]);
    assert!(book.yes_bids.is_empty());
}

#[test]
fn bids_rest_by_falling_price_and_arrival() {
    let (market, mut book) = open_market();
    let mut position = ClobPosition::unopened();
    for (trader, price) in [(2u8, 5000u64), (3, 6000), (4, 4000), (5, 6000), (6, 5000), (7, 6500)] {
        place(&market, &mut book, &mut position, trader, BID, true, price, 1).unwrap();
        assert!(book.is_well_formed());
    }
    assert_eq!(prices(&book.yes_bids), vec![6500, 6000, 6000, 5000, 5000, 4000]);
    let owners: Vec<Identity> = book.yes_bids.iter().map(|o| o.owner).collect();
    assert_eq!(owners, vec![id(7), id(3), id(5), id(2), id(6), id(4)]);
}

#[test]
fn asks_rest_by_rising_price_and_arrival() {
    let (market, mut book) = open_market();
    let mut position = ClobPosition::unopened();
    for (trader, price) in [(2u8, 5000u64), (3, 6000), (4, 4000), (5, 6000), (6, 5000), (7, 3500)] {
        place(&market, &mut book, &mut position, trader, ASK, true, price, 1).unwrap();
        assert!(book.is_well_formed());
    }
    assert_eq!(prices(&book.yes_asks), vec![3500, 4000, 5000, 5000, 6000, 6000]);
    let owners: Vec<Identity> = book.yes_asks.iter().map(|o| o.owner).collect();
    assert_eq!(owners, vec![id(7), id(4), id(2), id(6), id(3), id(5)]);
}

#[test]
fn orders_at_one_price_fill_first_come_first_served() {
    let (market, mut book) = open_market();
    let mut makers = ClobPosition::unopened();
    let mut taker = ClobPosition::unopened();
    place(&market, &mut book, &mut makers, 2, ASK, true, 5000, 3).unwrap();
    place(&market, &mut book, &mut makers, 3, ASK, true, 5000, 3).unwrap();
    place(&market, &mut book, &mut taker, 9, BID, true, 5000, 4).unwrap();
    assert_eq!(book.yes_asks, vec![order(3, 5000, 2)]);
    assert_eq!(taker.yes_shares, 4);
}

#[test]
fn the_book_never_stays_crossed() {
    let (market, mut book) = open_market();
    let mut position = ClobPosition::unopened();
    let orders: [(u8, bool, u64, u64); 10] = [
        (BID, true, 4000, 5),
        (ASK, true, 6000, 5),
        (BID, true, 6000, 2),
        (ASK, true, 3000, 9),
        (BID, false, 5000, 4),
        (ASK, false, 2000, 3),
        (BID, true, 9999, 1),
        (ASK, true, 1, 1),
        (BID, true, 5000, 20),
        (ASK, true, 5000, 30),
    ];
    for (side, is_yes, price, size) in orders {
        place(&market, &mut book, &mut position, 2, side, is_yes, price, size).unwrap();
        assert!(book.is_well_formed());
        assert!(book.yes_bids.windows(2).all(|w| w[0].price >= w[1].price));
        assert!(book.yes_asks.windows(2).all(|w| w[0].price <= w[1].price));
        if let (Some(bid), Some(ask)) = (book.yes_bids.first(), book.yes_asks.first()) {
            assert!(bid.price < ask.price);
        }
    }
}

#[test]
fn a_bid_walks_up_the_asks_to_its_limit() {
    let (market, _) = open_market();
    let mut book = book_of(vec![], vec![order(2, 5000, 3), order(3, 5500, 4), order(4, 6500, 9)]);
    let mut taker = holding(9, 10, 0);
    let receipt = place(&market, &mut book, &mut taker, 9, BID, true, 6000, 10).unwrap();
    assert_eq!(
        receipt,
        Placement {
            collateral: 60_000,
            filled: 7,
            resting: 3,
            fills: vec![Fill { price: 5000, size: 3 }, Fill { price: 5500, size: 4 }],
        }
    );
    assert_eq!(book.yes_asks, vec![order(4, 6500, 9)]);
    assert_eq!(book.yes_bids, vec![order(9, 6000, 3)]);
    assert_eq!(taker, holding(9, 17, 0));
}

#[test]
fn order_is_stamped_with_the_time_of_arrival() {
    let (market, mut book) = open_market();
    let mut position = ClobPosition::unopened();
    place_order(&market, &mut book, &mut position, market_key(), id(2), 1234, BID, true, 5000, 1)
        .unwrap();
    assert_eq!(book.yes_bids[0].timestamp, 1234);
    assert_eq!(book.yes_bids[0].order_id, 1234);
    let (old_market, mut old_book) =
        create_clob_market(id(1), market_key(), "m".to_string(), "q".to_string(), 0).unwrap();
    let key = market_key();
    place_order(&old_market, &mut old_book, &mut position, key, id(2), -1, BID, true, 5000, 1)
        .unwrap();
    assert_eq!(old_book.yes_bids[0].timestamp, -1);
    assert_eq!(old_book.yes_bids[0].order_id, u64::MAX);
}

#[test]
fn order_id_is_the_time_read_unsigned() {
    assert_eq!(order_id(0), 0);
    assert_eq!(order_id(1_700_000_000), 1_700_000_000);
    assert_eq!(order_id(i64::MAX), i64::MAX as u64);
    assert_eq!(order_id(-1), u64::MAX);
    assert_eq!(order_id(i64::MIN), 1u64 << 63);
}

#[test]
fn place_order_rejects_a_price_out_of_range() {
    let (market, mut book) = open_market();
    let mut position = ClobPosition::unopened();
    for price in [0u64, 10_000, 10_001, u64::MAX] {
        assert_eq!(
            place(&market, &mut book, &mut position, 2, BID, true, price, 1),
            Err(ClobError::InvalidPrice)
        );
        assert_eq!(
            place(&market, &mut book, &mut position, 2, ASK, false, price, 1),
            Err(ClobError::InvalidPrice)
        );
    }
    assert!(place(&market, &mut book, &mut position, 2, BID, true, 1, 1).is_ok());
    assert!(place(&market, &mut book, &mut position, 2, ASK, true, 9999, 1).is_ok());
}

#[test]
fn place_order_rejects_size_zero() {
    let (market, mut book) = open_market();
    let mut position = ClobPosition::unopened();
    assert_eq!(
        place(&market, &mut book, &mut position, 2, BID, true, 5000, 0),
        Err(ClobError::InvalidSize)
    );
    // The price is judged first.
    assert_eq!(
        place(&market, &mut book, &mut position, 2, BID, true, 0, 0),
        Err(ClobError::InvalidPrice)
    );
    assert_eq!(position, ClobPosition::unopened());
}

#[test]
fn place_order_rejects_a_resolved_market() {
    let (mut market, mut book) = open_market();
    market.resolved = true;
    market.winning_side = Some(0);
    let mut position = ClobPosition::unopened();
    assert_eq!(
        place(&market, &mut book, &mut position, 2, BID, true, 5000, 1),
        Err(ClobError::MarketResolved)
    );
    assert_eq!(book, book_of(vec![], vec![]));
}

#[test]
fn place_order_rejects_an_expired_market() {
    let (market, mut book) = open_market();
    let mut position = ClobPosition::unopened();
    for now in [DEADLINE, DEADLINE + 1, i64::MAX] {
        let key = market_key();
        assert_eq!(
            place_order(&market, &mut book, &mut position, key, id(2), now, BID, true, 5000, 1),
            Err(ClobError::MarketExpired)
        );
    }
    assert!(place_order(
        &market,
        &mut book,
        &mut position,
        market_key(),
        id(2),
        DEADLINE - 1,
        BID,
        true,
        5000,
        1
    )
    .is_ok());
}

#[test]
fn place_order_rejects_collateral_beyond_an_amount() {
    let (market, mut book) = open_market();
    let mut position = ClobPosition::unopened();
    assert_eq!(
        place(&market, &mut book, &mut position, 2, BID, true, 5000, u64::MAX),
        Err(ClobError::Overflow)
    );
    assert_eq!(
        place(&market, &mut book, &mut position, 2, BID, false, 5000, u64::MAX / 2),
        Err(ClobError::Overflow)
    );
    assert_eq!(book, book_of(vec![], vec![]));
    assert_eq!(position, ClobPosition::unopened());
}

#[test]
fn place_order_rejects_fills_the_balance_cannot_hold() {
    let (market, _) = open_market();
    let resting = vec![order(2, 5000, 3), order(3, 5500, 4)];
    let mut book = book_of(vec![], resting.clone());
    let mut position = holding(9, u64::MAX - 5, 0);
    assert_eq!(
        place(&market, &mut book, &mut position, 9, BID, true, 6000, 10),
        Err(ClobError::Overflow)
    );
    // Nothing was filled, nothing credited.
    assert_eq!(book, book_of(vec![], resting));
    assert_eq!(position, holding(9, u64::MAX - 5, 0));
    // Up to the last share it fits.
    assert!(place(&market, &mut book, &mut position, 9, BID, true, 6000, 5).is_ok());
    assert_eq!(position, holding(9, u64::MAX, 0));
}

#[test]
fn place_order_rejects_a_rest_on_a_full_side() {
    let (market, mut book) = open_market();
    let mut position = ClobPosition::unopened();
    for _ in 0..50 {
        place(&market, &mut book, &mut position, 2, BID, true, 4000, 1).unwrap();
    }
    assert_eq!(book.yes_bids.len(), 50);
    let full = book.clone();
    assert_eq!(
        place(&market, &mut book, &mut position, 2, BID, true, 4500, 1),
        Err(ClobError::OrderBookFull)
    );
    assert_eq!(book, full);
    // The other side is not full, and an order that fills whole needs no room.
    assert!(place(&market, &mut book, &mut position, 3, ASK, true, 9000, 1).is_ok());
    place(&market, &mut book, &mut position, 2, BID, true, 9000, 1).unwrap();
    assert_eq!(book.yes_bids.len(), 50);
    assert!(book.yes_asks.is_empty());
}

#[test]
fn a_partly_filled_order_leaves_all_as_it_was_when_it_cannot_rest() {
    let (market, _) = open_market();
    let bids: Vec<Order> = (0..50).map(|_| order(2, 4000, 1)).collect();
    let asks = vec![order(3, 5000, 2)];
    let mut book = book_of(bids.clone(), asks.clone());
    let mut position = holding(9, 1, 1);
    assert_eq!(
        place(&market, &mut book, &mut position, 9, BID, true, 5000, 3),
        Err(ClobError::OrderBookFull)
    );
    assert_eq!(book, book_of(bids, asks));
    assert_eq!(position, holding(9, 1, 1));
}

#[test]
fn an_open_position_keeps_its_owner() {
    let (market, mut book) = open_market();
    let mut position = holding(5, 3, 4);
    place(&market, &mut book, &mut position, 2, BID, true, 5000, 1).unwrap();
    assert_eq!(position, holding(5, 3, 4));
    assert_eq!(book.yes_bids[0].owner, id(2));
}

#[test]
fn cancel_refunds_the_collateral_escrowed() {
    let (market, mut book) = open_market();
    let mut position = ClobPosition::unopened();
    let bid = place(&market, &mut book, &mut position, 2, BID, true, 6000, 10).unwrap();
    let ask = place(&market, &mut book, &mut position, 2, ASK, true, 7000, 10).unwrap();
    assert_eq!(bid.collateral, 60_000);
    assert_eq!(ask.collateral, 30_000);
    assert_eq!(cancel_order(&mut book, id(2), true, 0), Ok(60_000));
    assert_eq!(cancel_order(&mut book, id(2), false, 0), Ok(30_000));
    assert_eq!(book, book_of(vec![], vec![]));
}

#[test]
fn placing_and_canceling_leaves_the_book_as_it_was() {
    let (market, _) = open_market();
    let before = book_of(
        vec![order(2, 6000, 1), order(3, 5000, 2), order(4, 5000, 3), order(5, 4000, 4)],
        vec![order(6, 7000, 5), order(7, 8000, 6)],
    );
    let cases: [(u8, bool, u64, u64, bool, u8, u64); 4] = [
        // side, is_yes, price, size; then the list, the index and the collateral
        (BID, true, 5000, 9, true, 3, 45_000),
        (ASK, true, 7500, 2, false, 1, 5_000),
        (BID, false, 3500, 3, false, 0, 10_500),
        (ASK, false, 9000, 7, true, 4, 7_000),
    ];
    for (side, is_yes, price, size, rests_as_bid, at, collateral) in cases {
        let mut book = before.clone();
        let mut position = ClobPosition::unopened();
        let receipt =
            place(&market, &mut book, &mut position, 9, side, is_yes, price, size).unwrap();
        assert_eq!(receipt.filled, 0);
        assert_eq!(receipt.resting, size);
        assert_eq!(receipt.collateral, collateral);
        assert_ne!(book, before);
        let list = if rests_as_bid { &book.yes_bids } else { &book.yes_asks };
        assert_eq!(list[at as usize].owner, id(9));
        assert_eq!(cancel_order(&mut book, id(9), rests_as_bid, at), Ok(collateral));
        assert_eq!(book, before);
    }
}

#[test]
fn cancel_of_a_no_order_refunds_its_own_price() {
    let (market, mut book) = open_market();
    let mut position = ClobPosition::unopened();
    let receipt = place(&market, &mut book, &mut position, 2, BID, false, 4000, 3).unwrap();
    assert_eq!(receipt.collateral, 12_000);
    assert_eq!(cancel_order(&mut book, id(2), false, 0), Ok(12_000));
}

#[test]
fn cancel_takes_the_order_out_of_its_place() {
    let mut book = book_of(
        vec![order(2, 6000, 1), order(3, 5000, 2), order(4, 4000, 3)],
        vec![order(5, 7000, 4)],
    );
    assert_eq!(cancel_order(&mut book, id(3), true, 1), Ok(10_000));
    assert_eq!(book, book_of(vec![order(2, 6000, 1), order(4, 4000, 3)], vec![order(5, 7000, 4)]));
    assert!(book.is_well_formed());
}

#[test]
fn cancel_after_a_partial_fill_refunds_the_open_part() {
    let (market, mut book) = open_market();
    let mut maker = ClobPosition::unopened();
    let mut taker = ClobPosition::unopened();
    place(&market, &mut book, &mut maker, 2, ASK, true, 5500, 4).unwrap();
    let receipt = place(&market, &mut book, &mut taker, 3, BID, true, 6000, 10).unwrap();
    assert_eq!(receipt.collateral, 60_000);
    assert_eq!(cancel_order(&mut book, id(3), true, 0), Ok(36_000));
}

#[test]
fn cancel_rejects_an_index_without_an_order() {
    let mut book = book_of(vec![order(2, 6000, 1)], vec![]);
    assert_eq!(cancel_order(&mut book, id(2), true, 1), Err(ClobError::InvalidOrderIndex));
    assert_eq!(cancel_order(&mut book, id(2), false, 0), Err(ClobError::InvalidOrderIndex));
    assert_eq!(cancel_order(&mut book, id(2), true, 255), Err(ClobError::InvalidOrderIndex));
    assert_eq!(book, book_of(vec![order(2, 6000, 1)], vec![]));
}

#[test]
fn cancel_rejects_a_stranger() {
    let mut book = book_of(vec![order(2, 6000, 1)], vec![order(3, 7000, 1)]);
    assert_eq!(cancel_order(&mut book, id(3), true, 0), Err(ClobError::NotOrderOwner));
    assert_eq!(cancel_order(&mut book, id(2), false, 0), Err(ClobError::NotOrderOwner));
    assert_eq!(book, book_of(vec![order(2, 6000, 1)], vec![order(3, 7000, 1)]));
}

#[test]
fn cancel_rejects_a_refund_beyond_an_amount() {
    let mut book = book_of(vec![order(2, 6000, u64::MAX)], vec![]);
    assert_eq!(cancel_order(&mut book, id(2), true, 0), Err(ClobError::Overflow));
    assert_eq!(book, book_of(vec![order(2, 6000, u64::MAX)], vec![]));
}

#[test]
fn match_against_asks_credits_yes_shares() {
    let mut book = book_of(vec![order(8, 4000, 1)], vec![order(2, 5000, 3), order(3, 5500, 4)]);
    let mut position = holding(9, 1, 2);
    let (remaining, fills) = match_against_asks(&mut book, &mut position, 5200, 5).unwrap();
    assert_eq!(remaining, 2);
    assert_eq!(fills, vec![Fill { price: 5000, size: 3 }]);
    assert_eq!(position, holding(9, 4, 2));
    assert_eq!(book, book_of(vec![order(8, 4000, 1)], vec![order(3, 5500, 4)]));
}

#[test]
fn match_against_bids_credits_no_shares() {
    let mut book = book_of(vec![order(2, 6000, 3), order(3, 5500, 4)], vec![order(8, 7000, 1)]);
    let mut position = holding(9, 1, 2);
    let (remaining, fills) = match_against_bids(&mut book, &mut position, 5500, 5).unwrap();
    assert_eq!(remaining, 0);
    assert_eq!(fills, vec![Fill { price: 6000, size: 3 }, Fill { price: 5500, size: 2 }]);
    assert_eq!(position, holding(9, 1, 7));
    assert_eq!(book, book_of(vec![order(3, 5500, 2)], vec![order(8, 7000, 1)]));
}

#[test]
fn match_rejects_before_anything_changes() {
    let asks = vec![order(2, 5000, 3), order(3, 5500, 4)];
    let mut book = book_of(vec![], asks.clone());
    let mut position = holding(9, u64::MAX - 6, 0);
    assert_eq!(
        match_against_asks(&mut book, &mut position, 6000, 10),
        Err(ClobError::Overflow)
    );
    assert_eq!(book, book_of(vec![], asks));
    assert_eq!(position, holding(9, u64::MAX - 6, 0));

    let bids = vec![order(2, 6000, 1)];
    let mut book = book_of(bids.clone(), vec![]);
    let mut position = holding(9, 0, u64::MAX);
    assert_eq!(
        match_against_bids(&mut book, &mut position, 6000, 10),
        Err(ClobError::Overflow)
    );
    assert_eq!(book, book_of(bids, vec![]));
}

#[test]
fn resting_index_is_behind_equal_prices() {
    let bids = vec![order(2, 6000, 1), order(3, 5000, 1), order(4, 5000, 1), order(5, 4000, 1)];
    assert_eq!(resting_index(&bids, Side::Bid, 7000), 0);
    assert_eq!(resting_index(&bids, Side::Bid, 6000), 1);
    assert_eq!(resting_index(&bids, Side::Bid, 5000), 3);
    assert_eq!(resting_index(&bids, Side::Bid, 4500), 3);
    assert_eq!(resting_index(&bids, Side::Bid, 1), 4);
    let asks = vec![order(2, 4000, 1), order(3, 5000, 1), order(4, 5000, 1)];
    assert_eq!(resting_index(&asks, Side::Ask, 3000), 0);
    assert_eq!(resting_index(&asks, Side::Ask, 4000), 1);
    assert_eq!(resting_index(&asks, Side::Ask, 5000), 3);
    assert_eq!(resting_index(&Vec::new(), Side::Ask, 5000), 0);
}

#[test]
fn well_formed_books_are_told_from_others() {
    assert!(book_of(vec![], vec![]).is_well_formed());
    assert!(book_of(vec![order(2, 5000, 1), order(3, 5000, 1)], vec![order(4, 5001, 1)])
        .is_well_formed());
    // Crossed.
    assert!(!book_of(vec![order(2, 5000, 1)], vec![order(4, 5000, 1)]).is_well_formed());
    // Out of order.
    assert!(!book_of(vec![order(2, 4000, 1), order(3, 5000, 1)], vec![]).is_well_formed());
    assert!(!book_of(vec![], vec![order(2, 5000, 1), order(3, 4000, 1)]).is_well_formed());
    // An order that is no order.
    assert!(!book_of(vec![order(2, 5000, 0)], vec![]).is_well_formed());
    assert!(!book_of(vec![order(2, 0, 1)], vec![]).is_well_formed());
    assert!(!book_of(vec![], vec![order(2, 10_000, 1)]).is_well_formed());
    // Too many.
    let many: Vec<Order> = (0..51).map(|_| order(2, 5000, 1)).collect();
    assert!(!book_of(many.clone(), vec![]).is_well_formed());
    assert!(book_of(many[..50].to_vec(), vec![]).is_well_formed());
    assert!(side_in_order(&many, Side::Bid));
    assert!(side_in_order(&many, Side::Ask));
    assert!(!side_in_order(&vec![order(2, 4000, 1), order(3, 5000, 1)], Side::Bid));
}
