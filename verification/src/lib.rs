//! Settlement engine for prediction markets.
//!
//! Two trading mechanisms share one notion of a market: a parimutuel pool,
//! whose stake is split pro rata among the holders of the winning outcome,
//! and a central limit order book of YES-denominated orders with collateral
//! escrowed per order. Every operation is a function from the records it is
//! given to the records it leaves behind, and either completes or rejects the
//! instruction with the records untouched. Identities arrive authenticated,
//! the time is handed in, and moving funds is left to the caller: each
//! operation reports the exact amount to move.
//!
//! - [`settlement`]: the pro-rata payout and the protocol fee.
//! - [`parimutuel`]: pool markets, from creation over stakes and resolution
//!   to claims.
//! - [`orders`], [`matching`], [`book`], [`trading`]: the order book, from
//!   the single order over the matching of an incoming order to the
//!   instructions that place and cancel orders.
//! - [`clob`]: order-book markets, their resolution and their claims.
//! - [`identity`], [`error`]: who acts, and how an instruction is rejected.
//!
//! What an operation does is stated by a spec function of the same
//! name with `spec_` before it, over the mathematical views of the records;
//! the laws that follow from these statements are proved beside them.

pub mod identity;
pub mod settlement;
pub mod error;
pub mod parimutuel;
pub mod orders;
pub mod matching;
pub mod book;
pub mod clob;
pub mod trading;

pub use book::OrderBook;
pub use clob::{
    claim_clob_winnings, create_clob_market, resolve_clob_market, ClobMarket, ClobPosition,
};
pub use error::{ClobError, ErrorCode};
pub use identity::Identity;
pub use orders::{Fill, Order, Side, BPS_MAX, MAX_ORDERS, SHARE_PAYOUT};
pub use parimutuel::{
    buy_shares, claim_winnings, create_market, resolve_market, Market, Position,
};
pub use settlement::{payout, MathError, Payout};
pub use trading::{
    cancel_order, match_against_asks, match_against_bids, place_order, Placement,
};
