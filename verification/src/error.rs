//! The rejections of the two kinds of market. Every rejection is synchronous
//! and final for the instruction in progress, and leaves every record as it
//! was.

use vstd::prelude::*;

verus! {

/// Why a parimutuel instruction was rejected.
#[derive(Clone, Copy, Debug, PartialEq, Eq, Hash, Structural)]
pub enum ErrorCode {
    /// A market must have 2 to 10 outcomes.
    InvalidOutcomeCount,
    /// The market identifier has more than 32 characters.
    MarketIdTooLong,
    /// The question has more than 256 characters.
    QuestionTooLong,
    /// The outcome index names no outcome of the market.
    InvalidOutcome,
    /// The market has been resolved before.
    MarketAlreadyResolved,
    /// The market has not been resolved yet.
    MarketNotResolved,
    /// The market is resolved and takes no more stake.
    MarketResolved,
    /// The position holds no shares of the winning outcome.
    NoWinningShares,
    /// The caller is not the market's authority.
    Unauthorized,
    /// An amount does not fit its width.
    Overflow,
    /// Nothing was staked on the winning outcome.
    DivideByZero,
}

/// Why an order-book instruction was rejected.
#[derive(Clone, Copy, Debug, PartialEq, Eq, Hash, Structural)]
pub enum ClobError {
    /// The market identifier has more than 32 characters.
    MarketIdTooLong,
    /// The question has more than 256 characters.
    QuestionTooLong,
    /// The price is not within 1 to 9999 basis points.
    InvalidPrice,
    /// The size is zero.
    InvalidSize,
    /// The market is resolved and takes no more orders.
    MarketResolved,
    /// The resolution deadline has passed.
    MarketExpired,
    /// The side of the book on which the order would rest is full.
    OrderBookFull,
    /// The index names no resting order.
    InvalidOrderIndex,
    /// The resting order belongs to someone else.
    NotOrderOwner,
    /// The winning side is neither YES nor NO.
    InvalidOutcome,
    /// The market has been resolved before.
    AlreadyResolved,
    /// The caller is not the market's authority.
    Unauthorized,
    /// The market has not been resolved yet.
    NotResolved,
    /// The position holds no shares of the winning side.
    NoWinnings,
    /// An amount does not fit its width.
    Overflow,
}

} // verus!
