//! Fixed-point settlement arithmetic shared by both kinds of market.

use vstd::arithmetic::div_mod::{
    lemma_div_is_ordered, lemma_div_multiples_vanish, lemma_multiply_divide_le, lemma_remainder,
};
use vstd::prelude::*;

verus! {

/// A payout is charged one part in this many as protocol fee (2%).
pub const FEE_DIVISOR: u64 = 50;

/// Why a payout could not be computed.
#[derive(Clone, Copy, Debug, PartialEq, Eq, Structural)]
pub enum MathError {
    /// The amount does not fit the width of an amount.
    Overflow,
    /// Nothing was staked on the winning side.
    DivideByZero,
}

/// What a winner is paid: the gross share of the pool, the fee kept back,
/// and what is handed over.
#[derive(Clone, Copy, Debug, PartialEq, Eq, Structural)]
pub struct Payout {
    pub gross: u64,
    pub fee: u64,
    pub net: u64,
}

/// The winner's share of the pool, rounded down:
/// `floor(winner_amount * total_pool / total_winning_amount)`.
pub open spec fn pro_rata(winner_amount: u64, total_pool: u64, total_winning_amount: u64) -> int
    recommends
        total_winning_amount > 0,
{
    (winner_amount as int * total_pool as int) / (total_winning_amount as int)
}

/// The fee on a gross payout, rounded down.
pub open spec fn fee_of(gross: u64) -> int {
    gross as int / FEE_DIVISOR as int
}

/// The gross payout with its fee and net amount.
pub open spec fn payout_of(gross: u64) -> Payout {
    Payout { gross, fee: fee_of(gross) as u64, net: (gross - fee_of(gross)) as u64 }
}

/// The outcome of settling `winner_amount` winning shares against a pool of
/// `total_pool`, of which `total_winning_amount` was staked on the winner.
pub open spec fn settlement(winner_amount: u64, total_pool: u64, total_winning_amount: u64)
    -> Result<Payout, MathError> {
    if total_winning_amount == 0 {
        Err(MathError::DivideByZero)
    } else if pro_rata(winner_amount, total_pool, total_winning_amount) > u64::MAX {
        Err(MathError::Overflow)
    } else {
        Ok(payout_of(pro_rata(winner_amount, total_pool, total_winning_amount) as u64))
    }
}

/// The product of two amounts always fits the double width.
pub proof fn lemma_product_fits_double_width(a: u64, b: u64)
    ensures
        0 <= a as int * b as int <= u128::MAX,
{
    assert(0 <= a as int * b as int <= 0xffff_ffff_ffff_ffff * 0xffff_ffff_ffff_ffff)
        by (nonlinear_arith)
        requires
            0 <= a <= 0xffff_ffff_ffff_ffff,
            0 <= b <= 0xffff_ffff_ffff_ffff,
    ;
}

/// Computes `floor(winner_amount * total_pool / total_winning_amount)` in
/// double width. Fails with `DivideByZero` when nothing was staked on the
/// winner, and with `Overflow` when the share exceeds the width of an amount,
/// which takes a holder with more shares than were staked on the winner.
pub fn payout(winner_amount: u64, total_pool: u64, total_winning_amount: u64) -> (result: Result<
    u64,
    MathError,
>)
    ensures
        match result {
            Ok(amount) => total_winning_amount != 0 && amount == pro_rata(
                winner_amount,
                total_pool,
                total_winning_amount,
            ),
            Err(MathError::DivideByZero) => total_winning_amount == 0,
            Err(MathError::Overflow) => total_winning_amount != 0 && pro_rata(
                winner_amount,
                total_pool,
                total_winning_amount,
            ) > u64::MAX,
        },
{
    if total_winning_amount == 0 {
        return Err(MathError::DivideByZero);
    }
    proof {
        lemma_product_fits_double_width(winner_amount, total_pool);
    }
    let product: u128 = match (winner_amount as u128).checked_mul(total_pool as u128) {
        Some(product) => product,
        None => { return Err(MathError::Overflow); },
    };
    let share: u128 = product / (total_winning_amount as u128);
    if share > u64::MAX as u128 {
        Err(MathError::Overflow)
    } else {
        Ok(share as u64)
    }
}

/// The protocol fee on a gross payout: one fiftieth, rounded down.
pub fn protocol_fee(gross: u64) -> (fee: u64)
    ensures
        fee == fee_of(gross),
        fee <= gross,
{
    gross / FEE_DIVISOR
}

/// Splits a gross payout into the fee kept back and the net amount paid.
pub fn net_of_fee(gross: u64) -> (paid: Payout)
    ensures
        paid == payout_of(gross),
        paid.fee + paid.net == gross,
{
    let fee: u64 = protocol_fee(gross);
    Payout { gross, fee, net: gross - fee }
}

/// Settles a winning balance against the pool: the pro-rata share, less the
/// fee.
pub fn settle(winner_amount: u64, total_pool: u64, total_winning_amount: u64) -> (result: Result<
    Payout,
    MathError,
>)
    ensures
        result == settlement(winner_amount, total_pool, total_winning_amount),
{
    match payout(winner_amount, total_pool, total_winning_amount) {
        Ok(gross) => Ok(net_of_fee(gross)),
        Err(MathError::DivideByZero) => Err(MathError::DivideByZero),
        Err(MathError::Overflow) => Err(MathError::Overflow),
    }
}

/// A holder of no more shares than were staked on the winner is paid no more
/// than the pool, so that settling such a balance cannot fail.
pub proof fn lemma_share_within_pool(winner_amount: u64, total_pool: u64, total_winning_amount: u64)
    requires
        0 < total_winning_amount,
        winner_amount <= total_winning_amount,
    ensures
        0 <= pro_rata(winner_amount, total_pool, total_winning_amount) <= total_pool,
        settlement(winner_amount, total_pool, total_winning_amount) is Ok,
{
    let product = winner_amount as int * total_pool as int;
    assert(0 <= product <= total_winning_amount as int * total_pool as int) by (nonlinear_arith)
        requires
            product == winner_amount as int * total_pool as int,
            0 <= winner_amount <= total_winning_amount,
            0 <= total_pool,
    ;
    lemma_multiply_divide_le(product, total_winning_amount as int, total_pool as int);
    lemma_div_is_ordered(0, product, total_winning_amount as int);
}

/// The holder of all the winning shares is paid the whole pool.
pub proof fn lemma_sole_winner_takes_pool(total_pool: u64, total_winning_amount: u64)
    requires
        0 < total_winning_amount,
    ensures
        pro_rata(total_winning_amount, total_pool, total_winning_amount) == total_pool,
{
    lemma_div_multiples_vanish(total_pool as int, total_winning_amount as int);
}

/// Splitting a holding never pays more: two holders are paid together at
/// most what one holder of both their shares would be paid. Rounding down
/// favours the pool.
pub proof fn lemma_split_pays_no_more(a: u64, b: u64, total_pool: u64, total_winning_amount: u64)
    requires
        0 < total_winning_amount,
        a + b <= u64::MAX,
    ensures
        pro_rata(a, total_pool, total_winning_amount) + pro_rata(
            b,
            total_pool,
            total_winning_amount,
        ) <= pro_rata((a + b) as u64, total_pool, total_winning_amount),
{
    let w = total_winning_amount as int;
    let x = a as int * total_pool as int;
    let y = b as int * total_pool as int;
    assert(0 <= x && 0 <= y) by (nonlinear_arith)
        requires
            x == a as int * total_pool as int,
            y == b as int * total_pool as int,
            0 <= a,
            0 <= b,
            0 <= total_pool,
    ;
    assert((a + b) * total_pool == x + y) by (nonlinear_arith)
        requires
            x == a as int * total_pool as int,
            y == b as int * total_pool as int,
    ;
    lemma_remainder(x, w);
    lemma_remainder(y, w);
    assert(w * (x / w + y / w) == x / w * w + y / w * w) by (nonlinear_arith);
    lemma_div_is_ordered(w * (x / w + y / w), x + y, w);
    lemma_div_multiples_vanish(x / w + y / w, w);
}

} // verus!
