//! The parimutuel pool: bettors stake on outcomes, one share per unit staked,
//! and the holders of the winning outcome split the whole pool pro rata.

use crate::error::ErrorCode;
use crate::identity::Identity;
use crate::settlement::{
    lemma_share_within_pool, lemma_split_pays_no_more, pro_rata, settle, settlement, MathError,
    Payout,
};
use vstd::prelude::*;

verus! {

/// Fewest outcomes a market can have.
pub const MIN_OUTCOMES: usize = 2;

/// Most outcomes a market can have.
pub const MAX_OUTCOMES: usize = 10;

/// Most characters in a market identifier.
pub const MAX_MARKET_ID_LEN: usize = 32;

/// Most characters in a question.
pub const MAX_QUESTION_LEN: usize = 256;

/// A parimutuel market.
#[derive(Clone, Debug, PartialEq, Eq)]
pub struct Market {
    /// The only identity that may resolve the market.
    pub authority: Identity,
    pub market_id: String,
    pub question: String,
    /// The outcome labels, in order.
    pub outcomes: Vec<String>,
    /// Stake pooled on each outcome, parallel to `outcomes`.
    pub outcome_pools: Vec<u64>,
    /// Stake pooled on all outcomes together.
    pub total_pool: u64,
    /// The resolution deadline.
    pub resolution_time: i64,
    pub resolved: bool,
    /// The index of the winning outcome, once resolved.
    pub winning_outcome: Option<u8>,
}

/// A bettor's shares in one parimutuel market. A position whose share list
/// is empty has not been opened yet; the first stake opens it.
#[derive(Clone, Debug, PartialEq, Eq)]
pub struct Position {
    pub owner: Identity,
    /// The market the position belongs to.
    pub market: Identity,
    /// Shares held of each outcome, parallel to the market's outcomes.
    pub shares: Vec<u64>,
}

/// A market as a mathematical value.
pub struct MarketView {
    pub authority: Identity,
    pub market_id: Seq<char>,
    pub question: Seq<char>,
    pub outcomes: Seq<Seq<char>>,
    pub outcome_pools: Seq<u64>,
    pub total_pool: u64,
    pub resolution_time: i64,
    pub resolved: bool,
    pub winning_outcome: Option<u8>,
}

/// A position as a mathematical value.
pub struct PositionView {
    pub owner: Identity,
    pub market: Identity,
    pub shares: Seq<u64>,
}

impl View for Market {
    type V = MarketView;

    open spec fn view(&self) -> MarketView {
        MarketView {
            authority: self.authority,
            market_id: self.market_id@,
            question: self.question@,
            outcomes: self.outcomes.deep_view(),
            outcome_pools: self.outcome_pools@,
            total_pool: self.total_pool,
            resolution_time: self.resolution_time,
            resolved: self.resolved,
            winning_outcome: self.winning_outcome,
        }
    }
}

impl View for Position {
    type V = PositionView;

    open spec fn view(&self) -> PositionView {
        PositionView { owner: self.owner, market: self.market, shares: self.shares@ }
    }
}

/// The sum of a list of amounts.
pub open spec fn total(amounts: Seq<u64>) -> int
    decreases amounts.len(),
{
    if amounts.len() == 0 {
        0
    } else {
        total(amounts.drop_last()) + amounts.last()
    }
}

/// A list of `n` zero amounts.
pub open spec fn zeros(n: nat) -> Seq<u64> {
    Seq::new(n, |i: int| 0u64)
}

impl MarketView {
    /// The invariant of a market: its texts are within bounds, it has 2 to 10
    /// outcomes with one pool each, the pools add up to the total, and it has
    /// a winning outcome, one of its own, exactly when it is resolved.
    pub open spec fn wf(self) -> bool {
        &&& self.market_id.len() <= MAX_MARKET_ID_LEN
        &&& self.question.len() <= MAX_QUESTION_LEN
        &&& MIN_OUTCOMES <= self.outcomes.len() <= MAX_OUTCOMES
        &&& self.outcome_pools.len() == self.outcomes.len()
        &&& total(self.outcome_pools) == self.total_pool
        &&& self.resolved <==> self.winning_outcome is Some
        &&& self.winning_outcome matches Some(w) ==> w < self.outcomes.len()
    }

    /// The market with `amount` more staked on outcome `index`.
    pub open spec fn with_stake(self, index: int, amount: u64) -> MarketView {
        MarketView {
            outcome_pools: self.outcome_pools.update(
                index,
                (self.outcome_pools[index] + amount) as u64,
            ),
            total_pool: (self.total_pool + amount) as u64,
            ..self
        }
    }

    /// The market resolved to outcome `winner`.
    pub open spec fn resolved_to(self, winner: u8) -> MarketView {
        MarketView { resolved: true, winning_outcome: Some(winner), ..self }
    }
}

impl PositionView {
    /// Whether the position can belong to the market: it is unopened, or
    /// holds one balance for each outcome.
    pub open spec fn fits(self, market: MarketView) -> bool {
        self.shares.len() == 0 || self.shares.len() == market.outcomes.len()
    }

    /// Shares held of outcome `index`; none of an outcome the position does
    /// not know.
    pub open spec fn balance(self, index: int) -> u64 {
        if 0 <= index < self.shares.len() {
            self.shares[index]
        } else {
            0
        }
    }

    /// The position as it stands when `buyer` stakes in a market of `count`
    /// outcomes: an unopened one is opened for the buyer with no shares.
    pub open spec fn opened(self, market_key: Identity, buyer: Identity, count: nat)
        -> PositionView {
        if self.shares.len() == 0 {
            PositionView { owner: buyer, market: market_key, shares: zeros(count) }
        } else {
            self
        }
    }

    /// The position with the balance of outcome `index` set to `shares`.
    pub open spec fn with_balance(self, index: int, shares: u64) -> PositionView {
        PositionView { shares: self.shares.update(index, shares), ..self }
    }
}

/// The records after a buy.
pub struct Bought {
    pub market: MarketView,
    pub position: PositionView,
}

/// The records after a claim.
pub struct Claimed {
    pub position: PositionView,
    /// What the claimer is paid.
    pub paid: Payout,
}

/// Which bound a new market violates, if any. The outcome count is judged
/// first, then the identifier, then the question.
pub open spec fn creation_error(id_len: nat, question_len: nat, outcome_count: nat) -> Option<
    ErrorCode,
> {
    if outcome_count < MIN_OUTCOMES || outcome_count > MAX_OUTCOMES {
        Some(ErrorCode::InvalidOutcomeCount)
    } else if id_len > MAX_MARKET_ID_LEN {
        Some(ErrorCode::MarketIdTooLong)
    } else if question_len > MAX_QUESTION_LEN {
        Some(ErrorCode::QuestionTooLong)
    } else {
        None
    }
}

/// A newly created market: nothing staked, not resolved.
pub open spec fn new_market(
    authority: Identity,
    market_id: Seq<char>,
    question: Seq<char>,
    outcomes: Seq<Seq<char>>,
    resolution_time: i64,
) -> MarketView {
    MarketView {
        authority,
        market_id,
        question,
        outcomes,
        outcome_pools: zeros(outcomes.len()),
        total_pool: 0,
        resolution_time,
        resolved: false,
        winning_outcome: None,
    }
}

/// What buying `amount` shares of outcome `outcome_index` does: the market
/// and the buyer's position afterwards, or the rejection. Shares are issued
/// one for one with the amount staked.
pub open spec fn spec_buy_shares(
    market: MarketView,
    position: PositionView,
    market_key: Identity,
    buyer: Identity,
    outcome_index: u8,
    amount: u64,
) -> Result<Bought, ErrorCode> {
    let opened = position.opened(market_key, buyer, market.outcomes.len());
    if market.resolved {
        Err(ErrorCode::MarketResolved)
    } else if outcome_index >= market.outcomes.len() {
        Err(ErrorCode::InvalidOutcome)
    } else if market.total_pool + amount > u64::MAX {
        Err(ErrorCode::Overflow)
    } else if opened.balance(outcome_index as int) + amount > u64::MAX {
        Err(ErrorCode::Overflow)
    } else {
        Ok(
            Bought {
                market: market.with_stake(outcome_index as int, amount),
                position: opened.with_balance(
                    outcome_index as int,
                    (opened.balance(outcome_index as int) + amount) as u64,
                ),
            },
        )
    }
}

/// What resolving the market to `winning_outcome` on behalf of `caller`
/// does: the resolved market, or the rejection. A resolved market rejects
/// every caller; an unresolved one rejects all but its authority.
pub open spec fn spec_resolve_market(market: MarketView, caller: Identity, winning_outcome: u8)
    -> Result<MarketView, ErrorCode> {
    if market.resolved {
        Err(ErrorCode::MarketAlreadyResolved)
    } else if caller != market.authority {
        Err(ErrorCode::Unauthorized)
    } else if winning_outcome >= market.outcomes.len() {
        Err(ErrorCode::InvalidOutcome)
    } else {
        Ok(market.resolved_to(winning_outcome))
    }
}

/// What claiming on a position on behalf of `claimer` does: the position
/// with its winning balance spent and the payout, or the rejection. Only the
/// owner of a position claims on it. The payout is the position's pro-rata
/// share of the whole pool, less the fee.
pub open spec fn spec_claim_winnings(market: MarketView, position: PositionView, claimer: Identity)
    -> Result<Claimed, ErrorCode> {
    if position.owner != claimer {
        Err(ErrorCode::Unauthorized)
    } else if !market.resolved || market.winning_outcome is None {
        Err(ErrorCode::MarketNotResolved)
    } else {
        let winner = market.winning_outcome->0 as int;
        if position.balance(winner) == 0 {
            Err(ErrorCode::NoWinningShares)
        } else {
            match settlement(
                position.balance(winner),
                market.total_pool,
                market.outcome_pools[winner],
            ) {
                Ok(paid) => Ok(Claimed { position: position.with_balance(winner, 0), paid }),
                Err(MathError::DivideByZero) => Err(ErrorCode::DivideByZero),
                Err(MathError::Overflow) => Err(ErrorCode::Overflow),
            }
        }
    }
}

/// Replacing one amount changes the sum by the difference.
pub proof fn lemma_total_update(amounts: Seq<u64>, index: int, amount: u64)
    requires
        0 <= index < amounts.len(),
    ensures
        total(amounts.update(index, amount)) == total(amounts) - amounts[index] + amount,
    decreases amounts.len(),
{
    if index == amounts.len() - 1 {
        assert(amounts.update(index, amount).drop_last() =~= amounts.drop_last());
    } else {
        lemma_total_update(amounts.drop_last(), index, amount);
        assert(amounts.update(index, amount).drop_last() =~= amounts.drop_last().update(
            index,
            amount,
        ));
    }
}

/// No amount exceeds the sum of the list it is in.
pub proof fn lemma_total_bounds(amounts: Seq<u64>, index: int)
    requires
        0 <= index < amounts.len(),
    ensures
        0 <= amounts[index] <= total(amounts),
    decreases amounts.len(),
{
    lemma_total_nonnegative(amounts.drop_last());
    if index < amounts.len() - 1 {
        lemma_total_bounds(amounts.drop_last(), index);
    }
}

/// A sum of amounts is not negative.
pub proof fn lemma_total_nonnegative(amounts: Seq<u64>)
    ensures
        0 <= total(amounts),
    decreases amounts.len(),
{
    if amounts.len() > 0 {
        lemma_total_nonnegative(amounts.drop_last());
    }
}

/// Zero amounts add up to zero.
pub proof fn lemma_total_zeros(n: nat)
    ensures
        total(zeros(n)) == 0,
    decreases n,
{
    if n > 0 {
        lemma_total_zeros((n - 1) as nat);
        assert(zeros(n).drop_last() =~= zeros((n - 1) as nat));
    }
}

impl Market {
    /// Whether the market satisfies its invariant. Records that come from
    /// outside are to be checked before they are handed to an operation.
    pub fn is_well_formed(&self) -> (ok: bool)
        ensures
            ok == self@.wf(),
    {
        let count: usize = self.outcomes.len();
        if self.market_id.as_str().unicode_len() > MAX_MARKET_ID_LEN
            || self.question.as_str().unicode_len() > MAX_QUESTION_LEN || count < MIN_OUTCOMES
            || count > MAX_OUTCOMES || self.outcome_pools.len() != count {
            return false;
        }
        let mut sum: u128 = 0;
        let mut i: usize = 0;
        while i < count
            invariant
                0 <= i <= count,
                count == self.outcome_pools.len(),
                count <= MAX_OUTCOMES,
                sum == total(self.outcome_pools@.subrange(0, i as int)),
                sum <= i * u64::MAX,
            decreases count - i,
        {
            assert(self.outcome_pools@.subrange(0, i + 1).drop_last()
                =~= self.outcome_pools@.subrange(0, i as int));
            sum = sum + self.outcome_pools[i] as u128;
            i += 1;
        }
        assert(self.outcome_pools@.subrange(0, count as int) =~= self.outcome_pools@);
        if sum != self.total_pool as u128 {
            return false;
        }
        match self.winning_outcome {
            Some(winner) => self.resolved && (winner as usize) < count,
            None => !self.resolved,
        }
    }
}

impl Position {
    /// A position that has not been opened yet.
    pub fn unopened() -> (position: Position)
        ensures
            position@.shares.len() == 0,
            position.owner.is_unset(),
            position.market.is_unset(),
    {
        Position { owner: Identity::unset(), market: Identity::unset(), shares: Vec::new() }
    }

    /// Whether the position can belong to the market.
    pub fn fits(&self, market: &Market) -> (ok: bool)
        ensures
            ok == self@.fits(market@),
    {
        self.shares.len() == 0 || self.shares.len() == market.outcomes.len()
    }
}

/// Creates a parimutuel market with nothing staked. Rejects an outcome count
/// outside 2 to 10 with `InvalidOutcomeCount`, else an identifier of more
/// than 32 characters with `MarketIdTooLong`, else a question of more than
/// 256 characters with `QuestionTooLong`.
pub fn create_market(
    authority: Identity,
    market_id: String,
    question: String,
    outcomes: Vec<String>,
    resolution_time: i64,
) -> (result: Result<Market, ErrorCode>)
    ensures
        match result {
            Ok(market) => {
                &&& creation_error(market_id@.len(), question@.len(), outcomes@.len()) is None
                &&& market@ == new_market(
                    authority,
                    market_id@,
                    question@,
                    outcomes.deep_view(),
                    resolution_time,
                )
                &&& market@.wf()
            },
            Err(e) => creation_error(market_id@.len(), question@.len(), outcomes@.len())
                == Some(e),
        },
{
    let count: usize = outcomes.len();
    if count < MIN_OUTCOMES || count > MAX_OUTCOMES {
        return Err(ErrorCode::InvalidOutcomeCount);
    }
    if market_id.as_str().unicode_len() > MAX_MARKET_ID_LEN {
        return Err(ErrorCode::MarketIdTooLong);
    }
    if question.as_str().unicode_len() > MAX_QUESTION_LEN {
        return Err(ErrorCode::QuestionTooLong);
    }
    let outcome_pools: Vec<u64> = vec![0u64; count];
    proof {
        assert(outcome_pools@ =~= zeros(count as nat));
        lemma_total_zeros(count as nat);
    }
    Ok(
        Market {
            authority,
            market_id,
            question,
            outcomes,
            outcome_pools,
            total_pool: 0,
            resolution_time,
            resolved: false,
            winning_outcome: None,
        },
    )
}

/// Stakes `amount` on outcome `outcome_index` for `buyer` and issues as many
/// shares, opening the buyer's position at the first stake. Returns the
/// number of shares issued, which is the amount the caller has to move into
/// the market's custody. Rejects a resolved market with `MarketResolved`,
/// else an index that names no outcome with `InvalidOutcome`, else a stake
/// that the pool or the position cannot hold with `Overflow`.
pub fn buy_shares(
    market: &mut Market,
    position: &mut Position,
    market_key: Identity,
    buyer: Identity,
    outcome_index: u8,
    amount: u64,
) -> (result: Result<u64, ErrorCode>)
    requires
        old(market)@.wf(),
        old(position)@.fits(old(market)@),
    ensures
        ({
            let expected = spec_buy_shares(
                old(market)@,
                old(position)@,
                market_key,
                buyer,
                outcome_index,
                amount,
            );
            match result {
                Ok(shares) => {
                    &&& shares == amount
                    &&& expected matches Ok(after)
                    &&& after.market == final(market)@
                    &&& after.position == final(position)@
                },
                Err(e) => {
                    &&& expected matches Err(rejection)
                    &&& rejection == e
                    &&& *final(market) == *old(market)
                    &&& *final(position) == *old(position)
                },
            }
        }),
        final(market)@.wf(),
        final(position)@.fits(final(market)@),
        total(final(market)@.outcome_pools) == final(market)@.total_pool,
{
    if market.resolved {
        return Err(ErrorCode::MarketResolved);
    }
    let index: usize = outcome_index as usize;
    let count: usize = market.outcomes.len();
    if index >= count {
        return Err(ErrorCode::InvalidOutcome);
    }
    let new_total: u64 = match market.total_pool.checked_add(amount) {
        Some(sum) => sum,
        None => { return Err(ErrorCode::Overflow); },
    };
    let unopened: bool = position.shares.len() == 0;
    let held: u64 = if unopened {
        0
    } else {
        position.shares[index]
    };
    let new_held: u64 = match held.checked_add(amount) {
        Some(sum) => sum,
        None => { return Err(ErrorCode::Overflow); },
    };
    if unopened {
        position.owner = buyer;
        position.market = market_key;
        position.shares = vec![0u64; count];
        assert(position.shares@ =~= zeros(count as nat));
    }
    position.shares.set(index, new_held);
    let pooled: u64 = market.outcome_pools[index];
    proof {
        lemma_total_bounds(market.outcome_pools@, index as int);
        lemma_total_update(market.outcome_pools@, index as int, (pooled + amount) as u64);
    }
    market.outcome_pools.set(index, pooled + amount);
    market.total_pool = new_total;
    Ok(amount)
}

/// Resolves the market to `winning_outcome`, once and for good. Rejects a
/// resolved market with `MarketAlreadyResolved`, else a caller other than
/// the authority with `Unauthorized`, else an index that names no outcome
/// with `InvalidOutcome`; a rejected market stays as it was, unresolved if
/// it was.
pub fn resolve_market(market: &mut Market, caller: Identity, winning_outcome: u8) -> (result:
    Result<(), ErrorCode>)
    ensures
        ({
            let expected = spec_resolve_market(old(market)@, caller, winning_outcome);
            match result {
                Ok(_) => expected matches Ok(after) && after == final(market)@,
                Err(e) => {
                    &&& expected matches Err(rejection)
                    &&& rejection == e
                    &&& *final(market) == *old(market)
                },
            }
        }),
        old(market)@.wf() ==> final(market)@.wf(),
{
    if market.resolved {
        return Err(ErrorCode::MarketAlreadyResolved);
    }
    if caller != market.authority {
        return Err(ErrorCode::Unauthorized);
    }
    if (winning_outcome as usize) >= market.outcomes.len() {
        return Err(ErrorCode::InvalidOutcome);
    }
    market.resolved = true;
    market.winning_outcome = Some(winning_outcome);
    Ok(())
}

/// Pays out a position in a resolved market and spends its winning balance,
/// so that it can be claimed once. Returns the payout: the caller hands the
/// net amount to the claimer, and the fee stays with the market. Rejects a
/// claimer who does not own the position with `Unauthorized`, else an
/// unresolved market with `MarketNotResolved`, else a position without
/// winning shares with `NoWinningShares`; a position that holds winning
/// shares of which the market knows none is rejected with `DivideByZero`,
/// and one whose share exceeds the width of an amount with `Overflow`.
pub fn claim_winnings(market: &Market, position: &mut Position, claimer: Identity) -> (result:
    Result<Payout, ErrorCode>)
    requires
        market@.wf(),
    ensures
        ({
            let expected = spec_claim_winnings(market@, old(position)@, claimer);
            match result {
                Ok(paid) => {
                    &&& expected matches Ok(after)
                    &&& after.position == final(position)@
                    &&& after.paid == paid
                },
                Err(e) => {
                    &&& expected matches Err(rejection)
                    &&& rejection == e
                    &&& *final(position) == *old(position)
                },
            }
        }),
{
    if position.owner != claimer {
        return Err(ErrorCode::Unauthorized);
    }
    if !market.resolved {
        return Err(ErrorCode::MarketNotResolved);
    }
    let winner: usize = match market.winning_outcome {
        Some(winner) => winner as usize,
        None => { return Err(ErrorCode::MarketNotResolved); },
    };
    let winner_shares: u64 = if winner < position.shares.len() {
        position.shares[winner]
    } else {
        0
    };
    if winner_shares == 0 {
        return Err(ErrorCode::NoWinningShares);
    }
    let total_winning_shares: u64 = market.outcome_pools[winner];
    match settle(winner_shares, market.total_pool, total_winning_shares) {
        Ok(paid) => {
            position.shares.set(winner, 0);
            Ok(paid)
        },
        Err(MathError::DivideByZero) => Err(ErrorCode::DivideByZero),
        Err(MathError::Overflow) => Err(ErrorCode::Overflow),
    }
}

/// A buy keeps the market's invariant: in particular the pools still add up
/// to the total, and the buyer's position still fits the market.
pub proof fn lemma_buy_keeps_pools_in_balance(
    market: MarketView,
    position: PositionView,
    market_key: Identity,
    buyer: Identity,
    outcome_index: u8,
    amount: u64,
)
    requires
        market.wf(),
        position.fits(market),
    ensures
        spec_buy_shares(market, position, market_key, buyer, outcome_index, amount) matches Ok(
            after,
        ) ==> {
            &&& after.market.wf()
            &&& total(after.market.outcome_pools) == after.market.total_pool
            &&& after.position.fits(after.market)
        },
{
    if spec_buy_shares(market, position, market_key, buyer, outcome_index, amount) is Ok {
        lemma_total_bounds(market.outcome_pools, outcome_index as int);
        lemma_total_update(
            market.outcome_pools,
            outcome_index as int,
            (market.outcome_pools[outcome_index as int] + amount) as u64,
        );
    }
}

/// Stake only grows: a buy takes nothing out of any pool and nothing off any
/// balance of the buyer.
pub proof fn lemma_buy_only_adds(
    market: MarketView,
    position: PositionView,
    market_key: Identity,
    buyer: Identity,
    outcome_index: u8,
    amount: u64,
    outcome: int,
)
    requires
        market.wf(),
        position.fits(market),
        0 <= outcome < market.outcomes.len(),
    ensures
        spec_buy_shares(market, position, market_key, buyer, outcome_index, amount) matches Ok(
            after,
        ) ==> {
            &&& after.market.outcome_pools[outcome] >= market.outcome_pools[outcome]
            &&& after.position.balance(outcome) >= position.balance(outcome)
            &&& after.market.outcome_pools[outcome_index as int]
                == market.outcome_pools[outcome_index as int] + amount
        },
{
    if spec_buy_shares(market, position, market_key, buyer, outcome_index, amount) is Ok {
        lemma_total_bounds(market.outcome_pools, outcome_index as int);
    }
}

/// Whether `after` is what some buy can leave of the market `before`: the
/// market after an accepted buy, or the same market after a rejected one.
pub open spec fn buy_step(before: MarketView, after: MarketView) -> bool {
    after == before || exists|
        position: PositionView,
        market_key: Identity,
        buyer: Identity,
        outcome_index: u8,
        amount: u64,
    |
        {
            &&& position.fits(before)
            &&& #[trigger] spec_buy_shares(
                before,
                position,
                market_key,
                buyer,
                outcome_index,
                amount,
            ) matches Ok(bought)
            &&& bought.market == after
        }
}

/// Whether each market of the list is what a buy leaves of the one before.
pub open spec fn buy_history(markets: Seq<MarketView>) -> bool {
    forall|k: int| 0 <= k < markets.len() - 1 ==> buy_step(#[trigger] markets[k], markets[k + 1])
}

/// Through any sequence of buys, by whomever and whether accepted or not,
/// the pools of a market add up to its total after every one of them.
pub proof fn lemma_pools_balance_through_buys(markets: Seq<MarketView>, k: int)
    requires
        markets.len() > 0,
        markets[0].wf(),
        buy_history(markets),
        0 <= k < markets.len(),
    ensures
        markets[k].wf(),
        total(markets[k].outcome_pools) == markets[k].total_pool,
    decreases k,
{
    if k > 0 {
        lemma_pools_balance_through_buys(markets, k - 1);
        let before = markets[k - 1];
        let after = markets[k];
        if after != before {
            let (position, market_key, buyer, outcome_index, amount) = choose|
                position: PositionView,
                market_key: Identity,
                buyer: Identity,
                outcome_index: u8,
                amount: u64,
            |
                {
                    &&& position.fits(before)
                    &&& #[trigger] spec_buy_shares(
                        before,
                        position,
                        market_key,
                        buyer,
                        outcome_index,
                        amount,
                    ) matches Ok(bought)
                    &&& bought.market == after
                };
            lemma_buy_keeps_pools_in_balance(
                before,
                position,
                market_key,
                buyer,
                outcome_index,
                amount,
            );
        }
    }
}

/// A market can be resolved once: after a resolution, every further one is
/// rejected with `MarketAlreadyResolved`, whoever asks and whatever for.
pub proof fn lemma_resolution_is_final(
    market: MarketView,
    caller: Identity,
    winning_outcome: u8,
    next_caller: Identity,
    next_outcome: u8,
)
    requires
        spec_resolve_market(market, caller, winning_outcome) is Ok,
    ensures
        spec_resolve_market(
            spec_resolve_market(market, caller, winning_outcome)->Ok_0,
            next_caller,
            next_outcome,
        ) matches Err(e) && e == ErrorCode::MarketAlreadyResolved,
{
}

/// When the authority resolves an open market to an index that names no
/// outcome, the resolution is rejected with `InvalidOutcome`.
pub proof fn lemma_unknown_outcome_is_rejected(market: MarketView, winning_outcome: u8)
    requires
        !market.resolved,
        winning_outcome >= market.outcomes.len(),
    ensures
        spec_resolve_market(market, market.authority, winning_outcome) matches Err(e) && e
            == ErrorCode::InvalidOutcome,
{
}

/// A resolved market is final: it takes no more stake and no other
/// resolution.
pub proof fn lemma_resolved_market_is_final(
    market: MarketView,
    position: PositionView,
    market_key: Identity,
    caller: Identity,
    outcome_index: u8,
    amount: u64,
)
    requires
        market.resolved,
    ensures
        spec_buy_shares(market, position, market_key, caller, outcome_index, amount) matches Err(e)
            && e == ErrorCode::MarketResolved,
        spec_resolve_market(market, caller, outcome_index) matches Err(e) && e
            == ErrorCode::MarketAlreadyResolved,
{
}

/// A position can be claimed once: after a claim, a second one on the same
/// position is rejected, with `NoWinningShares` when its owner claims again.
pub proof fn lemma_claim_is_single_use(
    market: MarketView,
    position: PositionView,
    claimer: Identity,
    next_claimer: Identity,
)
    requires
        spec_claim_winnings(market, position, claimer) is Ok,
    ensures
        spec_claim_winnings(
            market,
            spec_claim_winnings(market, position, claimer)->Ok_0.position,
            next_claimer,
        ) matches Err(e) && e == if next_claimer == claimer {
            ErrorCode::NoWinningShares
        } else {
            ErrorCode::Unauthorized
        },
{
}

/// What the holders of the given winning balances are paid together, before
/// fees.
pub open spec fn paid_out(holdings: Seq<u64>, total_pool: u64, total_winning_amount: u64) -> int
    decreases holdings.len(),
{
    if holdings.len() == 0 {
        0
    } else {
        paid_out(holdings.drop_last(), total_pool, total_winning_amount) + pro_rata(
            holdings.last(),
            total_pool,
            total_winning_amount,
        )
    }
}

/// The market stays solvent: winners whose balances add up to no more than
/// was staked on the winning outcome are paid, all together, no more than
/// the pool holds.
pub proof fn lemma_winners_are_paid_within_pool(
    holdings: Seq<u64>,
    total_pool: u64,
    total_winning_amount: u64,
)
    requires
        0 < total_winning_amount,
        total(holdings) <= total_winning_amount,
    ensures
        0 <= paid_out(holdings, total_pool, total_winning_amount) <= pro_rata(
            total(holdings) as u64,
            total_pool,
            total_winning_amount,
        ) <= total_pool,
    decreases holdings.len(),
{
    lemma_total_nonnegative(holdings);
    lemma_share_within_pool(total(holdings) as u64, total_pool, total_winning_amount);
    if holdings.len() > 0 {
        let rest = holdings.drop_last();
        lemma_total_nonnegative(rest);
        lemma_winners_are_paid_within_pool(rest, total_pool, total_winning_amount);
        lemma_split_pays_no_more(
            total(rest) as u64,
            holdings.last(),
            total_pool,
            total_winning_amount,
        );
    }
}

} // verus!
