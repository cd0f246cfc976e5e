//! Laws of what follows a trade, over the values of what was bought and sold.

use vstd::prelude::*;

use crate::arithmetic::{difference, gap, product};
use crate::binary64::{magnitude, Binary64, INFINITE};
use crate::executor::BalanceState;
use crate::numeric_laws::{law_rounding_stays_above, law_rounding_stays_below};
use crate::rounding::{
    distance, lemma_magnitude_increases, lemma_nearest_between, lemma_rounded_is,
    lemma_rounded_nearest, lemma_rounded_zero, rounded,
};
use crate::settlement::{
    after_offload, after_trade, lemma_worst_price_is, rebalancing, rest_of, worst_price,
    AfterOffload, AfterTrade, Offload,
};
use crate::strategy::TradeParams;
use crate::trading_laws::lemma_worst_code_exists;

verus! {

/// A trade is completed exactly if at least the ordered size was bought and at least the
/// ordered size was sold.
pub proof fn law_completed_exactly_by_full_fills(
    t: TradeParams,
    bought: Binary64,
    sold: Binary64,
)
    requires
        !t.buy_size.is_nan(),
        !t.sell_size.is_nan(),
        !bought.is_nan(),
        !sold.is_nan(),
    ensures
        after_trade(t, bought, sold) is Completed <==> t.buy_size.value() <= bought.value()
            && t.sell_size.value() <= sold.value(),
{
}

/// A trade is never completed by an amount that is no number, and nothing is offloaded if
/// it is not known what was bought or what was sold.
pub proof fn law_unknown_fills_complete_nothing(t: TradeParams, bought: Binary64, sold: Binary64)
    requires
        t.buy_size.is_nan() || t.sell_size.is_nan() || bought.is_nan() || sold.is_nan(),
    ensures
        !(after_trade(t, bought, sold) is Completed),
        bought.is_nan() || sold.is_nan() ==> after_trade(t, bought, sold) is Even,
{
}

/// What was bought is held less the taker fee of 0.0672%. If a trade is not filled in
/// full and more is held than was sold, the difference is sold off on the book that
/// sells. If more was sold than is held, the difference is bought back on the book that
/// buys. If as much was sold, nothing is left to do.
pub proof fn law_partial_fills_are_offloaded(t: TradeParams, bought: Binary64, sold: Binary64)
    requires
        !sold.is_nan(),
        t.buy_size.is_nan() || t.sell_size.is_nan() || bought.is_nan() || bought.value()
            < t.buy_size.value() || sold.value() < t.sell_size.value(),
    ensures
        ({
            let rate = Binary64 { bits: 0x3f46_0525_02ee_c7c9 };
            let one = Binary64 { bits: 0x3ff0_0000_0000_0000 };
            let held = product(bought, difference(one, rate));
            let r = after_trade(t, bought, sold);
            &&& !held.is_nan() && sold.value() < held.value() ==> (r matches AfterTrade::Offload(o)
                && !o.is_buy && o.asset_id == t.sell_asset_id && o.size == difference(held, sold)
                && o.limit_price == worst_price(t.sell_price, false))
            &&& !held.is_nan() && held.value() < sold.value() ==> (r matches AfterTrade::Offload(o)
                && o.is_buy && o.asset_id == t.buy_asset_id && o.size == difference(sold, held)
                && o.limit_price == worst_price(t.buy_price, true))
            &&& held.is_nan() || held.value() == sold.value() ==> r is Even
        }),
{
}

/// The worst price for a price from zero on is within 2% of it, and it is the furthest
/// such number: every number within 2% is at least as good. At any other price nothing
/// worse is taken.
pub proof fn law_worst_price_is_the_furthest_within_two_percent(
    price: Binary64,
    is_buy: bool,
    other: Binary64,
)
    requires
        other.is_finite(),
        other.value() >= 0,
    ensures
        price.negative() || !price.is_finite() ==> worst_price(price, is_buy) == price,
        !price.negative() && price.is_finite() ==> {
            let worst = worst_price(price, is_buy);
            &&& worst.is_finite() && !worst.negative()
            &&& is_buy ==> 50 * worst.value() <= 51 * price.value() && (50 * other.value() <= 51
                * price.value() ==> other.value() <= worst.value())
            &&& !is_buy ==> 50 * worst.value() >= 49 * price.value() && (50 * other.value() >= 49
                * price.value() ==> other.value() >= worst.value())
        },
{
    if !price.negative() && price.is_finite() {
        let code = lemma_worst_code_exists(price, is_buy);
        lemma_worst_price_is(price, is_buy, code);
        let c = other.code();
        if other.value() == 0 && c > 0 {
            lemma_magnitude_increases(0, c);
        }
        assert(other.value() == magnitude(c));
        if is_buy {
            if code + 1 < c {
                lemma_magnitude_increases(code + 1, c);
            }
            if c < code {
                lemma_magnitude_increases(c, code);
            }
        } else {
            if code > 0 && c < code - 1 {
                lemma_magnitude_increases(c, (code - 1) as nat);
            }
            if code < c {
                lemma_magnitude_increases(code, c);
            }
        }
    }
}

/// An offload is done exactly if at least its size was filled. Otherwise the rest, on the
/// same terms, is offloaded again if something was filled, and is stuck if nothing was.
pub proof fn law_offload_goes_on_until_it_is_done(offload: Offload, filled: Binary64)
    requires
        !filled.is_nan(),
        !offload.size.is_nan(),
    ensures
        after_offload(offload, filled) is Done <==> filled.value() >= offload.size.value(),
        after_offload(offload, filled) is Again <==> 0 < filled.value() && filled.value()
            < offload.size.value(),
        after_offload(offload, filled) is Done <==> rest_of(offload, filled) is None,
        after_offload(offload, filled) matches AfterOffload::Again(rest) ==> is_rest(
            offload,
            filled,
            rest,
        ),
        after_offload(offload, filled) matches AfterOffload::Stuck(rest) ==> is_rest(
            offload,
            filled,
            rest,
        ),
        rest_of(offload, filled) matches Some(rest) ==> is_rest(offload, filled, rest),
{
}

/// Nothing more is offloaded if it is not known what was filled or asked for.
pub proof fn law_unknown_amounts_end_an_offload(offload: Offload, filled: Binary64)
    requires
        filled.is_nan() || offload.size.is_nan(),
    ensures
        after_offload(offload, filled) is Done,
        rest_of(offload, filled) is None,
{
}

/// Whether `rest` is what is left of an offload: the same order for what is not filled.
pub open spec fn is_rest(offload: Offload, filled: Binary64, rest: Offload) -> bool {
    &&& rest.size == difference(offload.size, filled)
    &&& rest.asset_id == offload.asset_id
    &&& rest.is_buy == offload.is_buy
    &&& rest.limit_price == offload.limit_price
}

/// A conversion takes from the greater balance, whatever the amounts are. It is made
/// exactly if both balances are finite and at least two grains apart, and its amount is a
/// finite number above zero.
pub proof fn law_conversion_takes_from_the_greater_balance(balances: BalanceState)
    ensures
        ({
            let (usdc, usdh) = (balances.usdc, balances.usdh);
            let apart = usdc.value() - usdh.value();
            let r = rebalancing(balances);
            &&& r is Some <==> usdc.is_finite() && usdh.is_finite() && (apart >= 2 || apart <= -2)
            &&& r matches Some(c) ==> {
                &&& c.from_usdc <==> usdc.value() > usdh.value()
                &&& c.amount.is_finite()
                &&& c.amount.value() > 0
            }
        }),
{
    let apart = gap(balances.usdc, balances.usdh);
    let code = rounded(apart, 2);
    lemma_rounded_nearest(apart, 2);
    assert(magnitude(0) == 0 && magnitude(1) == 1);
    if apart == 0 {
        lemma_rounded_zero(2);
    } else if apart == 1 {
        lemma_nearest_between(1, 2, 0, false);
        lemma_rounded_is(1, 2, 0);
    } else {
        law_rounding_stays_above(apart, 2, 1);
    }
    if balances.usdc.is_finite() && balances.usdh.is_finite() {
        let top = (INFINITE - 1) as nat;
        if balances.usdc.code() < top {
            lemma_magnitude_increases(balances.usdc.code(), top);
        }
        if balances.usdh.code() < top {
            lemma_magnitude_increases(balances.usdh.code(), top);
        }
        law_rounding_stays_below(apart, 2, top);
        if code > 0 {
            lemma_magnitude_increases(0, code);
        }
    }
}

/// No other amount would bring the two balances nearer to each other.
pub proof fn law_no_other_amount_splits_more_evenly(balances: BalanceState, other: Binary64)
    requires
        balances.usdc.is_finite(),
        balances.usdh.is_finite(),
        other.is_finite(),
        other.value() >= 0,
    ensures
        rebalancing(balances) matches Some(c) ==> {
            let apart = if c.from_usdc {
                balances.usdc.value() - balances.usdh.value()
            } else {
                balances.usdh.value() - balances.usdc.value()
            };
            let left = apart - 2 * c.amount.value();
            let left_by_other = apart - 2 * other.value();
            &&& -left <= left_by_other || -left <= -left_by_other
            &&& left <= left_by_other || left <= -left_by_other
        },
{
    law_conversion_takes_from_the_greater_balance(balances);
    let apart = gap(balances.usdc, balances.usdh);
    lemma_rounded_nearest(apart, 2);
    let code = rounded(apart, 2);
    let c = other.code();
    if other.value() == 0 && c > 0 {
        lemma_magnitude_increases(0, c);
    }
    assert(other.value() == magnitude(c));
    assert(distance(apart, 2, code) <= distance(apart, 2, c));
}

} // verus!
