//! Markets traded on an order book: creation, binary resolution, and the
//! fixed payout per share of the winning side.

use crate::book::{empty_book, OrderBook};
use crate::error::ClobError;
use crate::identity::Identity;
use crate::orders::{Side, SHARE_PAYOUT};
use crate::parimutuel::{MAX_MARKET_ID_LEN, MAX_QUESTION_LEN};
use vstd::prelude::*;

verus! {

/// The code of the YES side in a resolution.
pub const YES: u8 = 0;

/// The code of the NO side in a resolution.
pub const NO: u8 = 1;

/// A market traded on an order book.
#[derive(Clone, Debug, PartialEq, Eq)]
pub struct ClobMarket {
    /// The only identity that may resolve the market.
    pub authority: Identity,
    pub market_id: String,
    pub question: String,
    /// The resolution deadline, after which no order is taken.
    pub resolution_time: i64,
    pub resolved: bool,
    /// The winning side, once resolved: 0 for YES, 1 for NO.
    pub winning_side: Option<u8>,
    pub total_yes_volume: u64,
    pub total_no_volume: u64,
}

/// A trader's shares in one order-book market.
#[derive(Clone, Copy, Debug, PartialEq, Eq)]
pub struct ClobPosition {
    /// The trader; unset while the position has not been opened.
    pub owner: Identity,
    /// The market the position belongs to.
    pub market: Identity,
    pub yes_shares: u64,
    pub no_shares: u64,
}

/// An order-book market as a mathematical value.
pub struct ClobMarketView {
    pub authority: Identity,
    pub market_id: Seq<char>,
    pub question: Seq<char>,
    pub resolution_time: i64,
    pub resolved: bool,
    pub winning_side: Option<u8>,
    pub total_yes_volume: u64,
    pub total_no_volume: u64,
}

impl View for ClobMarket {
    type V = ClobMarketView;

    open spec fn view(&self) -> ClobMarketView {
        ClobMarketView {
            authority: self.authority,
            market_id: self.market_id@,
            question: self.question@,
            resolution_time: self.resolution_time,
            resolved: self.resolved,
            winning_side: self.winning_side,
            total_yes_volume: self.total_yes_volume,
            total_no_volume: self.total_no_volume,
        }
    }
}

impl ClobMarketView {
    /// The invariant of a market: its texts are within bounds, and it has a
    /// winning side, YES or NO, exactly when it is resolved.
    pub open spec fn wf(self) -> bool {
        &&& self.market_id.len() <= MAX_MARKET_ID_LEN
        &&& self.question.len() <= MAX_QUESTION_LEN
        &&& self.resolved <==> self.winning_side is Some
        &&& self.winning_side matches Some(side) ==> side == YES || side == NO
    }
}

impl ClobPosition {
    /// The balance that fills credit to a taker on side `taker`: buying YES
    /// earns YES shares, and selling YES, which is buying NO, earns NO shares.
    pub open spec fn shares(self, taker: Side) -> u64 {
        match taker {
            Side::Bid => self.yes_shares,
            Side::Ask => self.no_shares,
        }
    }

    /// The position as it stands when `trader` places an order: an unopened
    /// one is opened for the trader with no shares.
    pub open spec fn opened(self, market_key: Identity, trader: Identity) -> ClobPosition {
        if self.owner.is_unset() {
            ClobPosition { owner: trader, market: market_key, yes_shares: 0, no_shares: 0 }
        } else {
            self
        }
    }

    /// The position with `filled` more shares on the balance of a taker on
    /// side `taker`.
    pub open spec fn credited(self, taker: Side, filled: u64) -> ClobPosition {
        match taker {
            Side::Bid => ClobPosition { yes_shares: (self.yes_shares + filled) as u64, ..self },
            Side::Ask => ClobPosition { no_shares: (self.no_shares + filled) as u64, ..self },
        }
    }

    /// The shares that win when the market resolves to `winning_side`: the
    /// YES balance for YES, the NO balance otherwise.
    pub open spec fn winning_shares(self, winning_side: u8) -> u64 {
        if winning_side == YES {
            self.yes_shares
        } else {
            self.no_shares
        }
    }

    /// The position with both balances cleared.
    pub open spec fn cleared(self) -> ClobPosition {
        ClobPosition { yes_shares: 0, no_shares: 0, ..self }
    }

    /// A position that has not been opened yet.
    pub fn unopened() -> (position: ClobPosition)
        ensures
            position.owner.is_unset(),
            position.market.is_unset(),
            position.yes_shares == 0,
            position.no_shares == 0,
    {
        ClobPosition {
            owner: Identity::unset(),
            market: Identity::unset(),
            yes_shares: 0,
            no_shares: 0,
        }
    }
}

impl ClobMarket {
    /// Whether the market satisfies its invariant. Records that come from
    /// outside are to be checked before they are handed to an operation.
    pub fn is_well_formed(&self) -> (ok: bool)
        ensures
            ok == self@.wf(),
    {
        if self.market_id.as_str().unicode_len() > MAX_MARKET_ID_LEN
            || self.question.as_str().unicode_len() > MAX_QUESTION_LEN {
            return false;
        }
        match self.winning_side {
            Some(side) => self.resolved && (side == YES || side == NO),
            None => !self.resolved,
        }
    }
}

/// The records after a claim.
pub struct ClobClaimed {
    pub position: ClobPosition,
    /// What the claimer is paid.
    pub payout: u64,
}

/// Which bound a new order-book market violates, if any. The identifier is
/// judged first, then the question.
pub open spec fn clob_creation_error(id_len: nat, question_len: nat) -> Option<ClobError> {
    if id_len > MAX_MARKET_ID_LEN {
        Some(ClobError::MarketIdTooLong)
    } else if question_len > MAX_QUESTION_LEN {
        Some(ClobError::QuestionTooLong)
    } else {
        None
    }
}

/// A newly created order-book market: not resolved, nothing traded.
pub open spec fn new_clob_market(
    authority: Identity,
    market_id: Seq<char>,
    question: Seq<char>,
    resolution_time: i64,
) -> ClobMarketView {
    ClobMarketView {
        authority,
        market_id,
        question,
        resolution_time,
        resolved: false,
        winning_side: None,
        total_yes_volume: 0,
        total_no_volume: 0,
    }
}

/// What resolving the market to `winning_side` on behalf of `caller` does:
/// the resolved market, or the rejection. The side is judged first, then
/// whether the market is still open, then the caller.
pub open spec fn spec_resolve_clob_market(
    market: ClobMarketView,
    caller: Identity,
    winning_side: u8,
) -> Result<ClobMarketView, ClobError> {
    if winning_side > NO {
        Err(ClobError::InvalidOutcome)
    } else if market.resolved {
        Err(ClobError::AlreadyResolved)
    } else if caller != market.authority {
        Err(ClobError::Unauthorized)
    } else {
        Ok(ClobMarketView { resolved: true, winning_side: Some(winning_side), ..market })
    }
}

/// What claiming on a position on behalf of `claimer` does: the cleared
/// position and the payout, or the rejection. Only the owner of a position
/// claims on it. Each share of the winning side pays `SHARE_PAYOUT`; shares
/// of the losing side pay nothing and are cleared with the rest.
pub open spec fn spec_claim_clob_winnings(
    market: ClobMarketView,
    position: ClobPosition,
    claimer: Identity,
) -> Result<ClobClaimed, ClobError> {
    if position.owner != claimer {
        Err(ClobError::Unauthorized)
    } else if !market.resolved || market.winning_side is None {
        Err(ClobError::NotResolved)
    } else {
        let payout = position.winning_shares(market.winning_side->0) * SHARE_PAYOUT;
        if payout > u64::MAX {
            Err(ClobError::Overflow)
        } else if payout == 0 {
            Err(ClobError::NoWinnings)
        } else {
            Ok(ClobClaimed { position: position.cleared(), payout: payout as u64 })
        }
    }
}

/// Creates an order-book market and its empty book. Rejects an identifier of
/// more than 32 characters with `MarketIdTooLong`, else a question of more
/// than 256 characters with `QuestionTooLong`.
pub fn create_clob_market(
    authority: Identity,
    market_key: Identity,
    market_id: String,
    question: String,
    resolution_time: i64,
) -> (result: Result<(ClobMarket, OrderBook), ClobError>)
    ensures
        match result {
            Ok(created) => {
                &&& clob_creation_error(market_id@.len(), question@.len()) is None
                &&& created.0@ == new_clob_market(authority, market_id@, question@, resolution_time)
                &&& created.1@ == empty_book(market_key)
                &&& created.0@.wf()
                &&& created.1@.wf()
            },
            Err(e) => clob_creation_error(market_id@.len(), question@.len()) == Some(e),
        },
{
    if market_id.as_str().unicode_len() > MAX_MARKET_ID_LEN {
        return Err(ClobError::MarketIdTooLong);
    }
    if question.as_str().unicode_len() > MAX_QUESTION_LEN {
        return Err(ClobError::QuestionTooLong);
    }
    let market = ClobMarket {
        authority,
        market_id,
        question,
        resolution_time,
        resolved: false,
        winning_side: None,
        total_yes_volume: 0,
        total_no_volume: 0,
    };
    let order_book = OrderBook { market: market_key, yes_bids: Vec::new(), yes_asks: Vec::new() };
    Ok((market, order_book))
}

/// Resolves the market to `winning_side`, 0 for YES or 1 for NO, once and
/// for good. Rejects any other side with `InvalidOutcome`, else a resolved
/// market with `AlreadyResolved`, else a caller other than the authority
/// with `Unauthorized`; a rejected market stays as it was.
pub fn resolve_clob_market(market: &mut ClobMarket, caller: Identity, winning_side: u8) -> (result:
    Result<(), ClobError>)
    ensures
        ({
            let expected = spec_resolve_clob_market(old(market)@, caller, winning_side);
            match result {
                Ok(_) => expected matches Ok(after) && after == final(market)@,
                Err(e) => {
                    &&& expected matches Err(rejection)
                    &&& rejection == e
                    &&& *final(market) == *old(market)
                },
            }
        }),
        old(market)@.wf() ==> final(market)@.wf(),
{
    if winning_side > NO {
        return Err(ClobError::InvalidOutcome);
    }
    if market.resolved {
        return Err(ClobError::AlreadyResolved);
    }
    if caller != market.authority {
        return Err(ClobError::Unauthorized);
    }
    market.resolved = true;
    market.winning_side = Some(winning_side);
    Ok(())
}

/// Pays out a position in a resolved market and clears both its balances.
/// Returns the amount the caller has to hand to the claimer: `SHARE_PAYOUT`
/// for each share of the winning side. Rejects a claimer who does not own
/// the position with `Unauthorized`, else an unresolved market with
/// `NotResolved`, else a payout that does not fit an amount with `Overflow`,
/// else a position without shares of the winning side with `NoWinnings`.
pub fn claim_clob_winnings(
    market: &ClobMarket,
    position: &mut ClobPosition,
    claimer: Identity,
) -> (result: Result<u64, ClobError>)
    ensures
        ({
            let expected = spec_claim_clob_winnings(market@, *old(position), claimer);
            match result {
                Ok(payout) => {
                    &&& expected matches Ok(after)
                    &&& after.position == *final(position)
                    &&& after.payout == payout
                },
                Err(e) => {
                    &&& expected matches Err(rejection)
                    &&& rejection == e
                    &&& *final(position) == *old(position)
                },
            }
        }),
{
    if position.owner != claimer {
        return Err(ClobError::Unauthorized);
    }
    if !market.resolved {
        return Err(ClobError::NotResolved);
    }
    let winning_side: u8 = match market.winning_side {
        Some(side) => side,
        None => { return Err(ClobError::NotResolved); },
    };
    let shares: u64 = if winning_side == YES {
        position.yes_shares
    } else {
        position.no_shares
    };
    let payout: u64 = match shares.checked_mul(SHARE_PAYOUT) {
        Some(amount) => amount,
        None => { return Err(ClobError::Overflow); },
    };
    if payout == 0 {
        return Err(ClobError::NoWinnings);
    }
    position.yes_shares = 0;
    position.no_shares = 0;
    Ok(payout)
}

/// A market can be resolved once: after a resolution, every further one is
/// rejected, with `AlreadyResolved` if it names YES or NO.
pub proof fn lemma_clob_resolution_is_final(
    market: ClobMarketView,
    caller: Identity,
    winning_side: u8,
    next_caller: Identity,
    next_side: u8,
)
    requires
        spec_resolve_clob_market(market, caller, winning_side) is Ok,
    ensures
        spec_resolve_clob_market(
            spec_resolve_clob_market(market, caller, winning_side)->Ok_0,
            next_caller,
            next_side,
        ) matches Err(e) && e == if next_side > NO {
            ClobError::InvalidOutcome
        } else {
            ClobError::AlreadyResolved
        },
{
}

/// A position can be claimed once: after a claim, a second one on the same
/// position is rejected, with `NoWinnings` when its owner claims again.
pub proof fn lemma_clob_claim_is_single_use(
    market: ClobMarketView,
    position: ClobPosition,
    claimer: Identity,
    next_claimer: Identity,
)
    requires
        spec_claim_clob_winnings(market, position, claimer) is Ok,
    ensures
        spec_claim_clob_winnings(
            market,
            spec_claim_clob_winnings(market, position, claimer)->Ok_0.position,
            next_claimer,
        ) matches Err(e) && e == if next_claimer == claimer {
            ClobError::NoWinnings
        } else {
            ClobError::Unauthorized
        },
{
}

/// A claim pays the winning side only: the payout is `SHARE_PAYOUT` for each
/// share of the winning side, whatever the position holds of the other, and
/// the claim clears both balances.
pub proof fn lemma_clob_claim_pays_winning_side(
    market: ClobMarketView,
    position: ClobPosition,
    claimer: Identity,
)
    requires
        market.wf(),
        spec_claim_clob_winnings(market, position, claimer) is Ok,
    ensures
        ({
            let claimed = spec_claim_clob_winnings(market, position, claimer)->Ok_0;
            &&& market.winning_side == Some(YES) ==> claimed.payout == position.yes_shares
                * SHARE_PAYOUT
            &&& market.winning_side == Some(NO) ==> claimed.payout == position.no_shares
                * SHARE_PAYOUT
            &&& claimed.position.yes_shares == 0
            &&& claimed.position.no_shares == 0
        }),
{
}

} // verus!
