//! What follows a trade: completing it, offloading what is left of it, and splitting
//! the dollars evenly again.

use vstd::arithmetic::mul::lemma_mul_is_commutative;
use vstd::prelude::*;

use crate::arithmetic::{difference, gap};
use crate::binary64::{magnitude, signed, Binary64, INFINITE};
use crate::executor::BalanceState;
use crate::natural::Natural;
use crate::ratio::{floor, scaled};
use crate::rounding::{lemma_magnitude_increases, rounded};
use crate::strategy::{after_fee, number, size_after_fee, TradeParams, ZERO};

verus! {

/// Whether `code` is the greatest finite one whose magnitude is at most 102% of
/// `grains`, for buying, or the least one whose magnitude is at least 98% of it, for
/// selling.
pub open spec fn is_worst_code(grains: nat, is_buy: bool, code: nat) -> bool {
    &&& code < INFINITE
    &&& if is_buy {
        &&& 50 * magnitude(code) <= 51 * grains
        &&& code + 1 < INFINITE ==> 51 * grains < 50 * magnitude(code + 1)
    } else {
        &&& 49 * grains <= 50 * magnitude(code)
        &&& code > 0 ==> 50 * magnitude((code - 1) as nat) < 49 * grains
    }
}

/// The worst price to take in place of `price`, which is 2% off. At a negative or
/// infinite price nothing worse is taken.
pub open spec fn worst_price(price: Binary64, is_buy: bool) -> Binary64 {
    if price.negative() || !price.is_finite() {
        price
    } else {
        signed(false, choose|code: nat| is_worst_code(price.grains(), is_buy, code))
    }
}

proof fn lemma_worst_code_unique(grains: nat, is_buy: bool, one: nat, two: nat)
    requires
        is_worst_code(grains, is_buy, one),
        is_worst_code(grains, is_buy, two),
    ensures
        one == two,
{
    if one != two {
        let low = if one < two {
            one
        } else {
            two
        };
        let high = if one < two {
            two
        } else {
            one
        };
        if low + 1 < high {
            lemma_magnitude_increases(low + 1, high);
            lemma_magnitude_increases(low, (high - 1) as nat);
        }
    }
}

/// What fits the description is the worst price.
pub proof fn lemma_worst_price_is(price: Binary64, is_buy: bool, code: nat)
    requires
        !price.negative(),
        price.is_finite(),
        is_worst_code(price.grains(), is_buy, code),
    ensures
        worst_price(price, is_buy) == signed(false, code),
{
    let chosen = choose|c: nat| is_worst_code(price.grains(), is_buy, c);
    lemma_worst_code_unique(price.grains(), is_buy, chosen, code);
}

/// The number of grains of a finite number, times `factor`.
fn grains_times(x: Binary64, factor: u64) -> (r: Natural)
    requires
        !x.negative(),
        x.is_finite(),
    ensures
        r@ == factor * x.grains(),
{
    let mut by = Natural::zero();
    by.multiply_add(1, factor);
    let r = scaled(&by, x.to_bits());
    proof {
        lemma_mul_is_commutative(x.grains() as int, factor as int);
    }
    r
}

/// Works out the worst price to take in place of `price`.
pub fn find_worst_price(price: Binary64, is_buy: bool) -> (r: Binary64)
    ensures
        r == worst_price(price, is_buy),
{
    if price.to_bits() >= INFINITE {
        return price;
    }
    let mut fifty = Natural::zero();
    fifty.multiply_add(1, 50);
    assert(fifty@ == 50);
    let code: u64 = if is_buy {
        let bound = grains_times(price, 51);
        let low: u64 = floor(&bound, &fifty);
        if low < INFINITE {
            low
        } else {
            proof {
                lemma_magnitude_increases((INFINITE - 1) as nat, INFINITE as nat);
            }
            INFINITE - 1
        }
    } else {
        let bound = grains_times(price, 49);
        let low: u64 = floor(&bound, &fifty);
        proof {
            if low > price.bits {
                lemma_magnitude_increases(price.bits as nat, low as nat);
            }
        }
        if bound.at_most(&scaled(&fifty, low)) {
            proof {
                if low > 0 {
                    lemma_magnitude_increases((low - 1) as nat, low as nat);
                }
            }
            low
        } else {
            assert(low < price.bits);
            low + 1
        }
    };
    proof {
        lemma_worst_price_is(price, is_buy, code as nat);
    }
    Binary64::join(false, code)
}

/// An order that gets rid of what is left of a trade.
#[derive(Debug, Clone, Copy)]
pub struct Offload {
    /// The book to trade on.
    pub asset_id: u32,
    /// Whether HYPE is bought back, rather than sold off.
    pub is_buy: bool,
    /// The amount of HYPE that has no counterpart.
    pub size: Binary64,
    /// The worst price to take.
    pub limit_price: Binary64,
}

/// What is left to offload after `filled` of it was: the same order for the rest, as
/// long as less was filled than the order asks for.
pub open spec fn rest_of(offload: Offload, filled: Binary64) -> Option<Offload> {
    if filled.less(offload.size) {
        Some(Offload { size: difference(offload.size, filled), ..offload })
    } else {
        None
    }
}

/// What to do after an offload was answered.
#[derive(Debug, Clone, Copy)]
pub enum AfterOffload {
    /// All of it was filled.
    Done,
    /// Some of it was filled; the rest is to be offloaded in turn.
    Again(Offload),
    /// None of it was filled.
    Stuck(Offload),
}

/// What to do after `filled` of an offload was filled.
pub open spec fn after_offload(offload: Offload, filled: Binary64) -> AfterOffload {
    match rest_of(offload, filled) {
        None => AfterOffload::Done,
        Some(rest) => if number(ZERO).less(filled) {
            AfterOffload::Again(rest)
        } else {
            AfterOffload::Stuck(rest)
        },
    }
}

impl Offload {
    /// What is left to offload after `filled` of it was.
    pub fn rest(&self, filled: Binary64) -> (r: Option<Offload>)
        ensures
            r == rest_of(*self, filled),
    {
        if filled.less_than(self.size) {
            Some(Offload { size: self.size.minus(filled), ..*self })
        } else {
            None
        }
    }

    /// Decides what to do after `filled` of it was filled.
    pub fn proceed(&self, filled: Binary64) -> (r: AfterOffload)
        ensures
            r == after_offload(*self, filled),
    {
        match self.rest(filled) {
            None => AfterOffload::Done,
            Some(rest) => if Binary64::from_bits(ZERO).less_than(filled) {
                AfterOffload::Again(rest)
            } else {
                AfterOffload::Stuck(rest)
            },
        }
    }
}

/// What is left to do after the legs of a trade were filled.
#[derive(Debug, Clone, Copy)]
pub enum AfterTrade {
    /// Both legs were filled in full.
    Completed,
    /// Not all was filled, but neither leg has more than the other.
    Even,
    /// Some HYPE has no counterpart.
    Offload(Offload),
}

/// Whether both legs were filled in full.
pub open spec fn filled_in_full(
    trade_params: TradeParams,
    bought: Binary64,
    sold: Binary64,
) -> bool {
    trade_params.buy_size.at_most(bought) && trade_params.sell_size.at_most(sold)
}

/// What is left to do of a trade, given the HYPE that was bought and sold. Of what was
/// bought, the taker fee leaves a part, and what is left of that after selling is sold
/// off on the book that sells. If more was sold, the rest is bought back on the book
/// that buys.
pub open spec fn after_trade(
    trade_params: TradeParams,
    bought: Binary64,
    sold: Binary64,
) -> AfterTrade {
    let held = size_after_fee(bought);
    if filled_in_full(trade_params, bought, sold) {
        AfterTrade::Completed
    } else if sold.less(held) {
        AfterTrade::Offload(
            Offload {
                asset_id: trade_params.sell_asset_id,
                is_buy: false,
                size: difference(held, sold),
                limit_price: worst_price(trade_params.sell_price, false),
            },
        )
    } else if held.less(sold) {
        AfterTrade::Offload(
            Offload {
                asset_id: trade_params.buy_asset_id,
                is_buy: true,
                size: difference(sold, held),
                limit_price: worst_price(trade_params.buy_price, true),
            },
        )
    } else {
        AfterTrade::Even
    }
}

/// Decides what is left to do of a trade.
pub fn follow_up(trade_params: &TradeParams, bought: Binary64, sold: Binary64) -> (r: AfterTrade)
    ensures
        r == after_trade(*trade_params, bought, sold),
{
    let held = after_fee(bought);
    if trade_params.buy_size.is_at_most(bought) && trade_params.sell_size.is_at_most(sold) {
        AfterTrade::Completed
    } else if sold.less_than(held) {
        AfterTrade::Offload(
            Offload {
                asset_id: trade_params.sell_asset_id,
                is_buy: false,
                size: held.minus(sold),
                limit_price: find_worst_price(trade_params.sell_price, false),
            },
        )
    } else if held.less_than(sold) {
        AfterTrade::Offload(
            Offload {
                asset_id: trade_params.buy_asset_id,
                is_buy: true,
                size: sold.minus(held),
                limit_price: find_worst_price(trade_params.buy_price, true),
            },
        )
    } else {
        AfterTrade::Even
    }
}

/// Dollars to be moved from one currency to the other.
#[derive(Debug, Clone, Copy)]
pub struct Conversion {
    /// Whether USDC becomes USDH, rather than the other way round.
    pub from_usdc: bool,
    pub amount: Binary64,
}

/// The conversion that splits the dollars evenly, if one is needed: the amount is the
/// number nearest to half of what one balance has more than the other.
pub open spec fn rebalancing(balances: BalanceState) -> Option<Conversion> {
    let half = rounded(gap(balances.usdc, balances.usdh), 2);
    if !balances.usdc.is_finite() || !balances.usdh.is_finite() || half == 0 {
        None
    } else {
        Some(
            Conversion {
                from_usdc: balances.usdh.less(balances.usdc),
                amount: signed(false, half),
            },
        )
    }
}

/// Finds the conversion that splits the dollars evenly.
pub fn find_rebalancing(balances: &BalanceState) -> (r: Option<Conversion>)
    ensures
        r == rebalancing(*balances),
{
    if !balances.usdc.is_a_finite_number() || !balances.usdh.is_a_finite_number() {
        return None;
    }
    let half: u64 = balances.usdc.half_distance(balances.usdh);
    if half == 0 {
        return None;
    }
    Some(
        Conversion {
            from_usdc: balances.usdh.less_than(balances.usdc),
            amount: Binary64::join(false, half),
        },
    )
}

} // verus!
