//! Laws of the trading rules.

use vstd::arithmetic::mul::*;
use vstd::arithmetic::power::*;
use vstd::arithmetic::power2::*;
use vstd::prelude::*;

use crate::arithmetic::{difference, gap, lemma_equals_zero, product, quotient};
use crate::binary64::{magnitude, signed, Binary64, BINADE, GRAINS_LOG, INFINITE};
use crate::client::{
    balances_in, reaction_to, state_after, state_settled, ClientState, Message, Reaction,
};
use crate::decimal::rounded_decimal;
use crate::executor::{
    attempt_on, current_prices, planned, ArbitrageError, Attempt, BalanceState,
};
use crate::feed::{balance_of, book_offset, store_after, SpotBalance, WebData2, WsBbo};
use crate::numeric_laws::{
    law_difference_has_the_sign_of_the_order, law_product_sign, law_product_with_a_part,
    law_quotient_sign, law_rounding_keeps_exact, law_rounding_stays_above,
    law_rounding_stays_below, lemma_one,
};
use crate::orders::{is_bulk_order, BulkOrder, OrderTexts, OrderType, SPOT_ASSETS};
use crate::rounding::{
    distance, lemma_floor_exists, lemma_magnitude_increases, lemma_magnitude_packed,
    lemma_magnitude_parts, lemma_nearest_between, lemma_rounded_is, lemma_rounded_nearest,
    lemma_rounded_zero, rounded,
};
use crate::settings::{from_zero_on, Settings};
use crate::settlement::{
    after_trade, filled_in_full, is_worst_code, lemma_worst_price_is, rebalancing, rest_of,
    worst_price, AfterTrade, Offload,
};
use crate::strategy::{
    fees, gross, kept_part, number, opportunity, profit, size_after_fee, size_bought, TradeParams,
    HYPE_USDC_ASSET_ID, HYPE_USDH_ASSET_ID, ONE, TAKER_FEE_RATE, TRADE_SIZE_USDH, TWO, ZERO,
};

verus! {

/// The constants are the numbers nearest to the decimals that they are known by: a fee
/// rate of 0.000672, a trade size of 20, zero, one and two.
#[verifier::spinoff_prover]
pub proof fn law_constants_are_nearest()
    ensures
        rounded_decimal(672, -6) == TAKER_FEE_RATE,
        rounded_decimal(20, 0) == TRADE_SIZE_USDH,
        rounded_decimal(0, 0) == ZERO,
        rounded_decimal(1, 0) == ONE,
        rounded_decimal(2, 0) == TWO,
{
    let grain = pow2(GRAINS_LOG as nat);
    lemma2_to64();
    lemma2_to64_rest();
    lemma_pow0(10);
    assert(forall|d: nat| #[trigger] (d * grain) * 1 == d * grain);
    // Whole numbers.
    lemma_magnitude_packed(0x0014_0000_0000_0000, 1026);
    lemma_pow2_adds(48, 1026);
    assert(magnitude(TRADE_SIZE_USDH as nat) == 20 * grain) by (nonlinear_arith)
        requires
            magnitude(TRADE_SIZE_USDH as nat) == 0x0014_0000_0000_0000 * pow2(1026),
            grain == 0x0001_0000_0000_0000 * pow2(1026),
    ;
    law_rounding_keeps_exact(1, TRADE_SIZE_USDH as nat);
    lemma_magnitude_packed(BINADE as nat, 1022);
    lemma_pow2_adds(52, 1022);
    law_rounding_keeps_exact(1, ONE as nat);
    lemma_magnitude_packed(BINADE as nat, 1023);
    lemma_pow2_adds(51, 1023);
    assert(magnitude(TWO as nat) == 2 * grain) by (nonlinear_arith)
        requires
            magnitude(TWO as nat) == 0x0010_0000_0000_0000 * pow2(1023),
            grain == 0x0008_0000_0000_0000 * pow2(1023),
    ;
    law_rounding_keeps_exact(1, TWO as nat);
    lemma_rounded_zero(1);
    // The fee rate, in units of two to the power of 1011 grains.
    let unit = pow2(1011);
    let q = pow(10, 6) as nat;
    lemma_pow1(10);
    lemma_pow_adds(10, 1, 1);
    lemma_pow_adds(10, 2, 1);
    lemma_pow_adds(10, 3, 3);
    assert(pow(10, 2) == 100);
    assert(pow(10, 3) == 1000);
    assert(q == 1_000_000) by (nonlinear_arith)
        requires
            q == pow(10, 3) * pow(10, 3),
            pow(10, 3) == 1000,
    ;
    lemma_pow2_adds(63, 1011);
    lemma_pow2_pos(1011);
    let p = 672 * grain;
    let low = TAKER_FEE_RATE as nat;
    lemma_magnitude_packed(0x16052502eec7c9, 1011);
    lemma_magnitude_packed(0x16052502eec7ca, 1011);
    lemma_nearest_between(p, q, low, false);
    lemma_rounded_is(p, q, TAKER_FEE_RATE as nat);
}

/// The fees are a number from zero on, and zero if the trade size is.
proof fn lemma_fees(settings: Settings)
    requires
        settings.sensible(),
    ensures
        !fees(settings).is_nan(),
        fees(settings).value() >= 0,
        settings.trade_size.is_zero() ==> fees(settings).is_zero(),
{
    let size = settings.trade_size;
    let rate = number(TAKER_FEE_RATE);
    let one_leg = product(size, rate);
    lemma_equals_zero(size);
    lemma_equals_zero(number(ZERO));
    law_product_sign(size, rate);
    law_product_sign(one_leg, number(TWO));
    if size.is_zero() {
        lemma_product_with_zero(size, rate);
        lemma_product_with_zero(one_leg, number(TWO));
    }
}

/// A product with zero is zero, or NaN.
proof fn lemma_product_with_zero(a: Binary64, b: Binary64)
    requires
        a.is_zero() || b.is_zero(),
    ensures
        product(a, b).is_nan() || product(a, b).is_zero() && product(a, b).value() == 0,
{
    lemma_pow2_pos(GRAINS_LOG as nat);
    lemma_mul_basics(a.grains() as int);
    lemma_mul_basics(b.grains() as int);
    lemma_rounded_zero(pow2(GRAINS_LOG as nat));
}

/// A direction earns something exactly if it earns more before fees than the taker fees
/// on both legs.
pub proof fn law_profit_is_what_exceeds_the_fees(settings: Settings, bid: Binary64, ask: Binary64)
    ensures
        number(ZERO).less(profit(settings, bid, ask)) <==> fees(settings).less(
            gross(settings, bid, ask),
        ),
{
    if !gross(settings, bid, ask).is_nan() && !fees(settings).is_nan() {
        law_difference_has_the_sign_of_the_order(gross(settings, bid, ask), fees(settings));
    }
}

/// If a difference is greater than a number, then so is the exact difference.
proof fn lemma_exact_difference_exceeds(a: Binary64, b: Binary64, c: Binary64)
    requires
        a.is_finite(),
        b.is_finite(),
        from_zero_on(c),
        c.less(difference(a, b)),
    ensures
        a.value() - b.value() > c.value(),
{
    let exact = a.value() - b.value();
    lemma_equals_zero(c);
    lemma_equals_zero(number(ZERO));
    law_difference_has_the_sign_of_the_order(a, b);
    assert(exact > 0);
    if exact <= c.value() {
        let code = rounded(exact as nat, 1);
        law_rounding_stays_below(exact as nat, 1, c.code());
        if code < c.code() {
            lemma_magnitude_increases(code, c.code());
        }
    }
}

/// A trade earns more than the minimum profit, and before fees it earns more than the
/// taker fees on both legs. Unless that is infinite, it is more than those fees and the
/// minimum together.
pub proof fn law_trade_earns_more_than_fees_and_minimum(
    settings: Settings,
    usdh_bid: Binary64,
    usdh_ask: Binary64,
    usdc_bid: Binary64,
    usdc_ask: Binary64,
)
    requires
        settings.sensible(),
    ensures
        opportunity(settings, usdh_bid, usdh_ask, usdc_bid, usdc_ask) matches Some(t) ==> {
            let earned = gross(settings, t.sell_price, t.buy_price);
            &&& settings.minimum_profit.less(t.expected_profit_usd)
            &&& number(ZERO).less(t.expected_profit_usd)
            &&& fees(settings).less(earned)
            &&& earned.is_finite() ==> earned.value() > fees(settings).value()
                + settings.minimum_profit.value()
        },
{
    if let Some(t) = opportunity(settings, usdh_bid, usdh_ask, usdc_bid, usdc_ask) {
        let earned = gross(settings, t.sell_price, t.buy_price);
        lemma_equals_zero(number(ZERO));
        lemma_equals_zero(settings.minimum_profit);
        law_profit_is_what_exceeds_the_fees(settings, t.sell_price, t.buy_price);
        lemma_fees(settings);
        if earned.is_finite() {
            if fees(settings).is_infinite() {
                lemma_magnitude_increases(earned.code(), INFINITE as nat);
            }
            lemma_exact_difference_exceeds(earned, fees(settings), settings.minimum_profit);
        }
    }
}

/// There is no trade of no size.
proof fn lemma_trade_has_a_size(
    settings: Settings,
    usdh_bid: Binary64,
    usdh_ask: Binary64,
    usdc_bid: Binary64,
    usdc_ask: Binary64,
)
    requires
        settings.sensible(),
        opportunity(settings, usdh_bid, usdh_ask, usdc_bid, usdc_ask) is Some,
    ensures
        number(ZERO).less(settings.trade_size),
        !settings.trade_size.negative(),
        !settings.trade_size.is_zero(),
{
    law_trade_earns_more_than_fees_and_minimum(settings, usdh_bid, usdh_ask, usdc_bid, usdc_ask);
    let t = opportunity(settings, usdh_bid, usdh_ask, usdc_bid, usdc_ask)->0;
    let size = size_bought(settings, t.buy_price);
    let earned = gross(settings, t.sell_price, t.buy_price);
    lemma_fees(settings);
    lemma_equals_zero(number(ZERO));
    lemma_equals_zero(settings.trade_size);
    law_product_sign(difference(t.sell_price, t.buy_price), size);
    if settings.trade_size.is_zero() {
        assert(size.is_zero()) by {
            if t.buy_price.is_finite() {
                lemma_equals_zero(t.buy_price);
                lemma_rounded_zero(t.buy_price.grains());
                lemma_mul_basics(pow2(GRAINS_LOG as nat) as int);
            }
        }
        lemma_product_with_zero(difference(t.sell_price, t.buy_price), size);
        assert(earned.value() == 0);
    }
}

/// HYPE is bought where it is cheaper and sold where it is dearer. Only at a negative
/// buying price is it the other way round.
pub proof fn law_buys_cheaper_and_sells_dearer(
    settings: Settings,
    usdh_bid: Binary64,
    usdh_ask: Binary64,
    usdc_bid: Binary64,
    usdc_ask: Binary64,
)
    requires
        settings.sensible(),
    ensures
        opportunity(settings, usdh_bid, usdh_ask, usdc_bid, usdc_ask) matches Some(t) ==> {
            &&& !t.buy_price.negative() ==> t.buy_price.less(t.sell_price)
            &&& t.buy_price.negative() ==> t.sell_price.less(t.buy_price)
        },
{
    if let Some(t) = opportunity(settings, usdh_bid, usdh_ask, usdc_bid, usdc_ask) {
        law_trade_earns_more_than_fees_and_minimum(
            settings,
            usdh_bid,
            usdh_ask,
            usdc_bid,
            usdc_ask,
        );
        lemma_trade_has_a_size(settings, usdh_bid, usdh_ask, usdc_bid, usdc_ask);
        lemma_fees(settings);
        let (bid, ask) = (t.sell_price, t.buy_price);
        let spread = difference(bid, ask);
        let size = size_bought(settings, ask);
        law_product_sign(spread, size);
        law_quotient_sign(settings.trade_size, ask);
        assert(!bid.is_nan() && !ask.is_nan());
        law_difference_has_the_sign_of_the_order(bid, ask);
        lemma_equals_zero(spread);
        lemma_equals_zero(number(ZERO));
        if spread.is_zero() {
            lemma_product_with_zero(spread, size);
        }
    }
}

/// The amounts of a trade: the trade size buys at the buying price, and what is left
/// after the taker fee is sold, which is never more than what was bought.
pub proof fn law_sells_no_more_than_it_buys(
    settings: Settings,
    usdh_bid: Binary64,
    usdh_ask: Binary64,
    usdc_bid: Binary64,
    usdc_ask: Binary64,
)
    ensures
        opportunity(settings, usdh_bid, usdh_ask, usdc_bid, usdc_ask) matches Some(t) ==> {
            &&& t.buy_size == size_bought(settings, t.buy_price)
            &&& t.sell_size == size_after_fee(t.buy_size)
            &&& !t.buy_size.is_nan()
            &&& !t.sell_size.is_nan()
            &&& t.sell_size.negative() == t.buy_size.negative()
            &&& t.sell_size.grains() <= t.buy_size.grains()
        },
{
    if let Some(t) = opportunity(settings, usdh_bid, usdh_ask, usdc_bid, usdc_ask) {
        lemma_kept_part();
        law_product_sign(difference(t.sell_price, t.buy_price), t.buy_size);
        law_product_sign(t.buy_size, kept_part());
        law_product_with_a_part(t.buy_size, kept_part());
    }
}

/// The bits of what the fee leaves of one.
const KEPT: u64 = 0x3fef_fa7e_b6bf_444e;

/// What the fee leaves is above zero and below everything.
#[verifier::spinoff_prover]
proof fn lemma_kept_part()
    ensures
        kept_part() == number(KEPT),
        number(KEPT).grains() == 0x1f_fa7e_b6bf_444e * pow2(1021),
        number(ONE).grains() == 0x20_0000_0000_0000 * pow2(1021),
        number(KEPT).grains() <= number(ONE).grains(),
        pow2(GRAINS_LOG as nat) == number(ONE).grains(),
        pow2(1021) > 0,
{
    let unit = pow2(1011);
    let place = pow2(1021);
    lemma2_to64();
    lemma2_to64_rest();
    lemma_one();
    lemma_pow2_pos(1011);
    lemma_pow2_adds(53, 1021);
    lemma_pow2_adds(63, 1011);
    lemma_pow2_adds(10, 1011);
    lemma_magnitude_packed(0x16_0525_02ee_c7c9, 1011);
    lemma_magnitude_packed(0x1f_fa7e_b6bf_444e, 1021);
    lemma_magnitude_packed(0x1f_fa7e_b6bf_444f, 1021);
    // In units of two to the power of 1011 grains.
    let whole = magnitude(ONE as nat);
    let fee = magnitude(TAKER_FEE_RATE as nat);
    let low = magnitude(KEPT as nat);
    let high = magnitude((KEPT + 1) as nat);
    assert(place == 1024 * unit);
    assert(whole == 0x8000_0000_0000_0000 * unit);
    assert(fee == 0x16_0525_02ee_c7c9 * unit);
    assert(low == 0x7fe9_fada_fd11_3800 * unit);
    assert(high == 0x7fe9_fada_fd11_3c00 * unit);
    let exact = (whole - fee) as nat;
    assert(exact == 0x7fe9_fada_fd11_3837 * unit);
    lemma_mul_basics(low as int);
    lemma_mul_basics(high as int);
    lemma_nearest_between(exact, 1, KEPT as nat, false);
    lemma_rounded_is(exact, 1, KEPT as nat);
    assert(number(ONE).value() == whole && number(TAKER_FEE_RATE).value() == fee);
    assert(exact > 0);
    assert(kept_part() == signed(false, KEPT as nat));
    lemma_magnitude_increases(KEPT as nat, ONE as nat);
}

/// Neighbouring magnitudes are at most one place apart, and a place is small against
/// a magnitude.
proof fn lemma_last_place(code: nat, m: nat, t: nat)
    requires
        code > 0,
        code == t * BINADE + m,
        magnitude(code) == m * pow2(t),
        m < 2 * BINADE,
        t == 0 || m >= BINADE,
    ensures
        magnitude((code - 1) as nat) + pow2(t) >= magnitude(code),
        magnitude(code) >= 745 ==> 745 * pow2(t) <= magnitude(code),
{
    lemma2_to64();
    lemma_pow2_pos(t);
    let place = pow2(t);
    if t == 0 || m > BINADE {
        lemma_magnitude_packed((m - 1) as nat, t);
        assert((m - 1) * place + place == m * place) by (nonlinear_arith);
    } else {
        let half = pow2((t - 1) as nat);
        lemma_pow2_unfold(t);
        lemma_magnitude_packed((2 * BINADE - 1) as nat, (t - 1) as nat);
        assert(t * BINADE == (t - 1) * BINADE + BINADE) by (nonlinear_arith);
        assert((2 * m - 1) * half + place >= m * place) by (nonlinear_arith)
            requires
                place == 2 * half,
        ;
    }
    if t > 0 {
        lemma_mul_inequality(745, m as int, place as int);
    }
}

/// The taker fee leaves something of any amount, and takes something of any amount of
/// at least 745 grains. Of a lesser one it takes nothing.
#[verifier::spinoff_prover]
pub proof fn law_fee_takes_a_part(size: Binary64)
    requires
        size.is_finite(),
        number(ZERO).less(size),
    ensures
        number(ZERO).less(size_after_fee(size)),
        size.grains() >= 745 ==> size_after_fee(size).less(size),
        size.grains() < 745 ==> size_after_fee(size) == size,
{
    lemma_kept_part();
    lemma_equals_zero(size);
    lemma_equals_zero(number(ZERO));
    let c = size.code();
    let q = pow2(GRAINS_LOG as nat);
    let unit = pow2(1021);
    let s = size.grains();
    let p = s * number(KEPT).grains();
    let r = rounded(p, q);
    lemma_pow2_pos(GRAINS_LOG as nat);
    lemma_rounded_nearest(p, q);
    let (m, t) = lemma_magnitude_parts(c);
    let place = pow2(t);
    lemma_pow2_pos(t);
    lemma2_to64();
    let before = magnitude((c - 1) as nat);
    lemma_magnitude_increases((c - 1) as nat, c);
    // In units of two to the power of 1021 grains squared.
    let su = s * unit;
    assert(p == 0x1f_fa7e_b6bf_444e * su && s * q == 0x20_0000_0000_0000 * su) by (nonlinear_arith)
        requires
            p == s * (0x1f_fa7e_b6bf_444e * unit),
            q == 0x20_0000_0000_0000 * unit,
            su == s * unit,
    ;
    let bu = before * unit;
    assert(before * q == 0x20_0000_0000_0000 * bu) by (nonlinear_arith)
        requires
            q == 0x20_0000_0000_0000 * unit,
            bu == before * unit,
    ;
    assert(distance(p, q, c) == 0x581_4940_bbb2 * su);
    law_product_with_a_part(size, kept_part());
    if s >= 745 {
        // The place of the last bit is small against the part that the fee takes.
        let pu = place * unit;
        lemma_mul_strictly_positive(place as int, unit as int);
        lemma_last_place(c, m, t);
        assert(bu + pu >= su) by (nonlinear_arith)
            requires
                before + place >= s,
                bu == before * unit,
                pu == place * unit,
                su == s * unit,
                unit > 0,
        ;
        assert(745 * pu <= su) by (nonlinear_arith)
            requires
                745 * place <= s,
                pu == place * unit,
                su == s * unit,
                unit > 0,
        ;
        lemma_mul_strict_inequality(before as int, s as int, unit as int);
        assert(0x20_0000_0000_0000 * pu < 2 * 0x581_4940_bbb2 * su) by (nonlinear_arith)
            requires
                745 * pu <= su,
                pu > 0,
        ;
        assert(distance(p, q, (c - 1) as nat) < distance(p, q, c));
        law_rounding_stays_below(p, q, c);
        lemma_magnitude_increases(r, c);
        assert(p >= q) by (nonlinear_arith)
            requires
                p == 0x1f_fa7e_b6bf_444e * su,
                q == 0x20_0000_0000_0000 * unit,
                su == s * unit,
                s >= 745,
                unit > 0,
        ;
        assert(magnitude(1) == 1);
        law_rounding_stays_above(p, q, 1);
        lemma_magnitude_increases(0, r);
    } else {
        assert(magnitude(745) == 745);
        if c > 745 {
            lemma_magnitude_increases(745, c);
        }
        assert(before == s - 1);
        assert(bu == su - unit) by (nonlinear_arith)
            requires
                bu == before * unit,
                su == s * unit,
                before == s - 1,
        ;
        assert(su <= 744 * unit) by (nonlinear_arith)
            requires
                su == s * unit,
                s <= 744,
                unit > 0,
        ;
        assert(p < s * q);
        lemma_nearest_between(p, q, (c - 1) as nat, true);
        lemma_rounded_is(p, q, c);
    }
}

/// A dollar buys at least 745 grains at any finite price.
proof fn lemma_dollar_buys_grains(spent: Binary64, ask: Binary64)
    requires
        spent.is_finite(),
        number(ONE).grains() <= spent.grains(),
        ask.is_finite(),
        !ask.is_zero(),
        quotient(spent, ask).is_finite(),
    ensures
        quotient(spent, ask).grains() >= 745,
{
    let q = pow2(GRAINS_LOG as nat);
    lemma_one();
    lemma_equals_zero(ask);
    lemma_equals_zero(number(ONE));
    lemma2_to64();
    lemma2_to64_rest();
    lemma_pow2_pos(GRAINS_LOG as nat);
    lemma_magnitude_increases(ask.code(), INFINITE as nat);
    lemma_magnitude_packed(BINADE as nat, 2046);
    lemma_pow2_adds(52, 2046);
    lemma_pow2_adds(GRAINS_LOG as nat, GRAINS_LOG as nat);
    lemma_pow2_adds(50, 2098);
    let p = spent.grains() * q;
    lemma_mul_inequality(q as int, spent.grains() as int, q as int);
    assert(magnitude(745) == 745);
    law_rounding_stays_above(p, ask.grains(), 745);
    let code = rounded(p, ask.grains());
    lemma_rounded_nearest(p, ask.grains());
    if code > 745 {
        lemma_magnitude_increases(745, code);
    }
}

/// As long as its price is not negative and its size finite, a trade sells something, and
/// less than it buys if it buys at least 745 grains, which a dollar always does.
pub proof fn law_sells_less_than_it_buys(
    settings: Settings,
    usdh_bid: Binary64,
    usdh_ask: Binary64,
    usdc_bid: Binary64,
    usdc_ask: Binary64,
)
    requires
        settings.sensible(),
    ensures
        opportunity(settings, usdh_bid, usdh_ask, usdc_bid, usdc_ask) matches Some(t) ==> (
        !t.buy_price.negative() && t.buy_size.is_finite() ==> {
            &&& number(ZERO).less(t.sell_size)
            &&& t.buy_size.grains() >= 745 ==> t.sell_size.less(t.buy_size)
            &&& number(ONE).at_most(settings.trade_size) ==> t.buy_size.grains() >= 745
        }),
{
    if let Some(t) = opportunity(settings, usdh_bid, usdh_ask, usdc_bid, usdc_ask) {
        if !t.buy_price.negative() && t.buy_size.is_finite() {
            let ask = t.buy_price;
            let spent = settings.trade_size;
            lemma_equals_zero(number(ZERO));
            lemma_equals_zero(number(ONE));
            lemma_equals_zero(spent);
            lemma_equals_zero(ask);
            law_trade_earns_more_than_fees_and_minimum(
                settings,
                usdh_bid,
                usdh_ask,
                usdc_bid,
                usdc_ask,
            );
            lemma_trade_has_a_size(settings, usdh_bid, usdh_ask, usdc_bid, usdc_ask);
            lemma_fees(settings);
            let spread = difference(t.sell_price, ask);
            law_product_sign(spread, t.buy_size);
            law_quotient_sign(spent, ask);
            lemma_equals_zero(t.buy_size);
            if t.buy_size.is_zero() {
                lemma_product_with_zero(spread, t.buy_size);
            }
            assert(ask.is_finite() && spent.is_finite());
            if number(ONE).at_most(spent) {
                lemma_dollar_buys_grains(spent, ask);
            }
            law_fee_takes_a_part(t.buy_size);
        }
    }
}

/// A trade buys at the ask of one book and sells at the bid of the other one.
pub proof fn law_trade_uses_both_books(
    settings: Settings,
    usdh_bid: Binary64,
    usdh_ask: Binary64,
    usdc_bid: Binary64,
    usdc_ask: Binary64,
)
    ensures
        opportunity(settings, usdh_bid, usdh_ask, usdc_bid, usdc_ask) matches Some(t) ==> {
            ||| t.buy_asset_id == HYPE_USDC_ASSET_ID && t.buy_price == usdc_ask && t.sell_asset_id
                == HYPE_USDH_ASSET_ID && t.sell_price == usdh_bid
            ||| t.buy_asset_id == HYPE_USDH_ASSET_ID && t.buy_price == usdh_ask && t.sell_asset_id
                == HYPE_USDC_ASSET_ID && t.sell_price == usdc_bid
        },
{
}

/// A trade is found exactly if one of the directions earns more than the minimum, and
/// the direction that earns more is taken. This leaves out the case that buying with
/// USDC earns more than the minimum while the estimate of the other direction is NaN.
pub proof fn law_takes_the_better_direction(
    settings: Settings,
    usdh_bid: Binary64,
    usdh_ask: Binary64,
    usdc_bid: Binary64,
    usdc_ask: Binary64,
)
    requires
        !(settings.minimum_profit.less(profit(settings, usdh_bid, usdc_ask)) && profit(
            settings,
            usdc_bid,
            usdh_ask,
        ).is_nan()),
    ensures
        opportunity(settings, usdh_bid, usdh_ask, usdc_bid, usdc_ask) is Some
            <==> settings.minimum_profit.less(profit(settings, usdh_bid, usdc_ask))
            || settings.minimum_profit.less(profit(settings, usdc_bid, usdh_ask)),
        opportunity(settings, usdh_bid, usdh_ask, usdc_bid, usdc_ask) matches Some(t) ==> {
            &&& !t.expected_profit_usd.less(profit(settings, usdh_bid, usdc_ask))
            &&& !t.expected_profit_usd.less(profit(settings, usdc_bid, usdh_ask))
        },
{
}

/// No trade is planned while one of the four prices is missing.
pub proof fn law_no_trade_without_prices(
    settings: Settings,
    store: Seq<Binary64>,
    balances: BalanceState,
)
    requires
        store[1].is_zero() || store[3].is_zero() || store[5].is_zero() || store[7].is_zero(),
    ensures
        planned(settings, store, balances) == Err::<TradeParams, ArbitrageError>(
            ArbitrageError::PricesNotInitialized,
        ),
{
}

/// The best bid and offer of one book alone never leads to a trade.
pub proof fn law_one_book_is_not_enough(
    settings: Settings,
    bbo: WsBbo,
    balances: BalanceState,
)
    ensures
        planned(settings, store_after(Seq::new(8, |i: int| number(ZERO)), bbo), balances) == Err::<
            TradeParams,
            ArbitrageError,
        >(ArbitrageError::PricesNotInitialized),
{
    let store = store_after(Seq::new(8, |i: int| number(ZERO)), bbo);
    assert(store[5] == number(ZERO) || store[1] == number(ZERO));
}

/// A trade is planned only if the balance of the currency that it spends is not below
/// the trade size.
pub proof fn law_spends_only_what_is_there(
    settings: Settings,
    store: Seq<Binary64>,
    balances: BalanceState,
)
    ensures
        planned(settings, store, balances) matches Ok(t) ==> {
            &&& t.buy_asset_id == HYPE_USDH_ASSET_ID ==> !balances.usdh.less(
                settings.trade_size,
            )
            &&& t.buy_asset_id == HYPE_USDC_ASSET_ID ==> !balances.usdc.less(
                settings.trade_size,
            )
            &&& t.buy_asset_id == HYPE_USDH_ASSET_ID || t.buy_asset_id == HYPE_USDC_ASSET_ID
        },
{
}

/// No trade is planned before balances have come in.
pub proof fn law_no_trade_without_balances(settings: Settings, store: Seq<Binary64>)
    requires
        settings.sensible(),
    ensures
        planned(
            settings,
            store,
            BalanceState { usdc: number(ZERO), usdh: number(ZERO), hype: number(ZERO) },
        ) is Err,
{
    if let Ok((usdh_bid, usdh_ask, usdc_bid, usdc_ask)) = current_prices(store) {
        if opportunity(settings, usdh_bid, usdh_ask, usdc_bid, usdc_ask) is Some {
            lemma_trade_has_a_size(settings, usdh_bid, usdh_ask, usdc_bid, usdc_ask);
        }
    }
}

/// The HYPE balance has no bearing on whether a trade is planned.
pub proof fn law_hype_balance_is_not_asked_for(
    settings: Settings,
    store: Seq<Binary64>,
    balances: BalanceState,
    hype: Binary64,
)
    ensures
        planned(settings, store, BalanceState { hype, ..balances }) == planned(settings, store, balances),
{
}

/// What can happen to a client.
pub enum Event {
    /// A message comes in.
    Message(Message),
    /// The trade that was placed is settled.
    Settled,
}

/// The state after an event.
pub open spec fn state_after_event(
    state: ClientState,
    followed: Seq<Seq<char>>,
    event: Event,
) -> ClientState {
    match event {
        Event::Message(message) => state_after(state, followed, message),
        Event::Settled => state_settled(state),
    }
}

/// How many trades a run of events places.
pub open spec fn trades_placed(
    state: ClientState,
    followed: Seq<Seq<char>>,
    events: Seq<Event>,
) -> nat
    decreases events.len(),
{
    if events.len() == 0 {
        0
    } else {
        let first: nat = match events[0] {
            Event::Message(message) => match reaction_to(state, followed, message) {
                Reaction::Attempted(Attempt::Place { .. }) => 1,
                _ => 0,
            },
            Event::Settled => 0,
        };
        first + trades_placed(
            state_after_event(state, followed, events[0]),
            followed,
            events.drop_first(),
        )
    }
}

/// How many settlements are in a run of events.
pub open spec fn settlements(events: Seq<Event>) -> nat
    decreases events.len(),
{
    if events.len() == 0 {
        0
    } else {
        settlements(events.drop_first()) + if events[0] is Settled {
            1nat
        } else {
            0nat
        }
    }
}

/// Whatever happens, no trade is placed while one is under way: each trade but the first
/// takes that one before it is settled.
pub proof fn law_one_trade_at_a_time(
    state: ClientState,
    followed: Seq<Seq<char>>,
    events: Seq<Event>,
)
    ensures
        trades_placed(state, followed, events) <= settlements(events) + if state.executing {
            0nat
        } else {
            1nat
        },
    decreases events.len(),
{
    if events.len() > 0 {
        law_one_trade_at_a_time(
            state_after_event(state, followed, events[0]),
            followed,
            events.drop_first(),
        );
    }
}

/// Once a trade is settled, the next one may be placed: an attempt comes to what the
/// prices and balances call for.
pub proof fn law_settled_executor_is_free(state: ClientState, followed: Seq<Seq<char>>, bbo: WsBbo)
    ensures
        reaction_to(state_settled(state), followed, Message::Bbo(bbo)) == Reaction::Attempted(
            attempt_on(
                state.settings,
                false,
                store_after(state.prices, bbo),
                state.balances,
            ),
        ),
{
}

/// After a trade is settled, the first balances that come in decide on a conversion, and
/// those after them on none.
pub proof fn law_dollars_are_moved_once_after_a_trade(
    state: ClientState,
    followed: Seq<Seq<char>>,
    first: WebData2,
    second: WebData2,
)
    ensures
        reaction_to(state_settled(state), followed, Message::WebData2(Some(first))) == (
        Reaction::Balances {
            balances: balances_in(followed, first),
            conversion: rebalancing(balances_in(followed, first)),
        }),
        reaction_to(
            state_after(state_settled(state), followed, Message::WebData2(Some(first))),
            followed,
            Message::WebData2(Some(second)),
        ) == (Reaction::Balances {
            balances: balances_in(followed, second),
            conversion: None,
        }),
{
}

/// The executor has the same prices as the client, eight entries, and still has after
/// any message.
pub proof fn law_executor_has_the_latest_prices(
    state: ClientState,
    followed: Seq<Seq<char>>,
    message: Message,
)
    requires
        state.prices.len() == 8,
        state.executor_prices == state.prices,
    ensures
        state_after(state, followed, message).prices.len() == 8,
        state_after(state, followed, message).executor_prices == state_after(
            state,
            followed,
            message,
        ).prices,
{
}

/// The executor is busy after an attempt exactly if it was busy before or a trade is
/// to be placed.
pub proof fn law_busy_only_by_placing(
    settings: Settings,
    executing: bool,
    store: Seq<Binary64>,
    balances: BalanceState,
)
    ensures
        executing ==> attempt_on(settings, executing, store, balances) is AlreadyRunning,
        !executing ==> (attempt_on(settings, executing, store, balances) is Place <==> planned(
            settings,
            store,
            balances,
        ) is Ok),
        !(attempt_on(settings, executing, store, balances) is Rejected) <==> executing || attempt_on(
            settings,
            executing,
            store,
            balances,
        ) is Place,
{
}

/// A best bid and offer leaves the prices of the other book alone.
pub proof fn law_other_book_is_left_alone(store: Seq<Binary64>, bbo: WsBbo, i: int)
    requires
        store.len() == 8,
        0 <= i < 8,
        !(book_offset(bbo.coin@) <= i < book_offset(bbo.coin@) + 4),
    ensures
        store_after(store, bbo)[i] == store[i],
        store_after(store, bbo).len() == 8,
{
}

/// A best bid and offer that has one side only changes nothing.
pub proof fn law_one_sided_book_is_ignored(store: Seq<Binary64>, bbo: WsBbo)
    requires
        bbo.bbo@[0] is None || bbo.bbo@[1] is None,
    ensures
        store_after(store, bbo) == store,
{
}

/// Updates of the two books may come in either order.
pub proof fn law_books_are_independent(store: Seq<Binary64>, one: WsBbo, two: WsBbo)
    requires
        store.len() == 8,
        book_offset(one.coin@) != book_offset(two.coin@),
    ensures
        store_after(store_after(store, one), two) == store_after(store_after(store, two), one),
{
    assert(store_after(store_after(store, one), two) =~= store_after(
        store_after(store, two),
        one,
    ));
}

/// Of two updates of one book, the later one counts.
pub proof fn law_later_update_counts(store: Seq<Binary64>, earlier: WsBbo, later: WsBbo)
    requires
        store.len() == 8,
        book_offset(earlier.coin@) == book_offset(later.coin@),
        later.bbo@[0] is Some,
        later.bbo@[1] is Some,
    ensures
        store_after(store_after(store, earlier), later) == store_after(store, later),
{
    assert(store_after(store_after(store, earlier), later) =~= store_after(store, later));
}

/// The last entry of a coin counts, and entries of other coins have no bearing on it.
pub proof fn law_last_entry_counts(
    followed: Seq<Seq<char>>,
    balances: Seq<SpotBalance>,
    entry: SpotBalance,
    coin: Seq<char>,
)
    ensures
        balance_of(followed, balances.push(entry), coin) == if !followed.contains(coin) {
            number(ZERO)
        } else if entry.coin@ == coin {
            entry.available()
        } else {
            balance_of(followed, balances, coin)
        },
{
    assert(balances.push(entry).drop_last() == balances);
}

/// The orders of a planned trade buy on one book and sell on the other, both at once and
/// both immediate-or-cancel, and their asset numbers exist.
pub proof fn law_orders_have_both_legs(
    settings: Settings,
    store: Seq<Binary64>,
    balances: BalanceState,
    bulk: BulkOrder,
    texts: OrderTexts,
)
    ensures
        planned(settings, store, balances) matches Ok(t) ==> {
            &&& t.buy_asset_id <= u32::MAX - SPOT_ASSETS
            &&& t.sell_asset_id <= u32::MAX - SPOT_ASSETS
            &&& is_bulk_order(bulk, t, texts) ==> {
                &&& bulk.orders@.len() == 2
                &&& bulk.orders@[0].is_buy && !bulk.orders@[1].is_buy
                &&& bulk.orders@[0].asset == SPOT_ASSETS + HYPE_USDC_ASSET_ID
                    && bulk.orders@[1].asset == SPOT_ASSETS + HYPE_USDH_ASSET_ID
                    || bulk.orders@[0].asset == SPOT_ASSETS + HYPE_USDH_ASSET_ID
                    && bulk.orders@[1].asset == SPOT_ASSETS + HYPE_USDC_ASSET_ID
                &&& forall|i: int|
                    0 <= i < 2 ==> ((#[trigger] bulk.orders@[i]).order_type matches OrderType::Limit(
                        limit,
                    ) && limit.tif@ == "Ioc"@)
            }
        },
{
}

/// A trade whose legs are filled in full is completed: nothing more is to be done of it.
pub proof fn law_full_fills_complete_a_trade(
    settings: Settings,
    usdh_bid: Binary64,
    usdh_ask: Binary64,
    usdc_bid: Binary64,
    usdc_ask: Binary64,
)
    ensures
        opportunity(settings, usdh_bid, usdh_ask, usdc_bid, usdc_ask) matches Some(t)
            ==> after_trade(t, t.buy_size, t.sell_size) is Completed,
{
    law_sells_no_more_than_it_buys(settings, usdh_bid, usdh_ask, usdc_bid, usdc_ask);
}

/// Unless both legs are filled in full, HYPE is offloaded exactly if what the fee leaves
/// of what was bought is not what was sold. The amount is the one nearest to the
/// distance between the two, it is above zero, and it is sold off if more was bought and
/// bought back if more was sold.
pub proof fn law_offloads_what_is_unmatched(
    trade_params: TradeParams,
    bought: Binary64,
    sold: Binary64,
)
    requires
        size_after_fee(bought).is_finite(),
        sold.is_finite(),
        !filled_in_full(trade_params, bought, sold),
    ensures
        after_trade(trade_params, bought, sold) is Offload <==> size_after_fee(bought).value()
            != sold.value(),
        after_trade(trade_params, bought, sold) matches AfterTrade::Offload(o) ==> {
            &&& o.size == signed(false, rounded(gap(size_after_fee(bought), sold), 1))
            &&& number(ZERO).less(o.size)
            &&& o.is_buy <==> size_after_fee(bought).less(sold)
            &&& o.asset_id == if o.is_buy {
                trade_params.buy_asset_id
            } else {
                trade_params.sell_asset_id
            }
        },
{
    let held = size_after_fee(bought);
    law_difference_has_the_sign_of_the_order(held, sold);
    law_difference_has_the_sign_of_the_order(sold, held);
}

/// The worst price of an offload is at most 2% worse than the price of its leg, and
/// never better.
pub proof fn law_offload_price_is_within_two_percent(price: Binary64, is_buy: bool)
    requires
        price.is_finite(),
        !price.negative(),
    ensures
        worst_price(price, is_buy).is_finite(),
        50 * gap(worst_price(price, is_buy), price) <= price.grains(),
        is_buy ==> price.at_most(worst_price(price, is_buy)),
        !is_buy ==> worst_price(price, is_buy).at_most(price),
{
    let grains = price.grains();
    let code = price.code();
    let found = lemma_worst_code_exists(price, is_buy);
    lemma_worst_price_is(price, is_buy, found);
    if found < code {
        lemma_magnitude_increases(found, code);
        if is_buy {
            lemma_magnitude_increases(found, found + 1);
            if found + 1 < code {
                lemma_magnitude_increases(found + 1, code);
            }
        }
    } else if code < found {
        lemma_magnitude_increases(code, found);
        if !is_buy && code < found - 1 {
            lemma_magnitude_increases(code, (found - 1) as nat);
        }
    }
}

/// What an offload leaves is another one on the same terms, of the unfilled amount, which
/// is above zero and no more than before. Nothing is left exactly if at least the size
/// was filled.
pub proof fn law_offload_leaves_the_rest(offload: Offload, filled: Binary64)
    requires
        offload.size.is_finite(),
        from_zero_on(filled),
    ensures
        rest_of(offload, filled) is None <==> offload.size.at_most(filled),
        rest_of(offload, filled) matches Some(rest) ==> {
            &&& number(ZERO).less(rest.size)
            &&& rest.size.at_most(offload.size)
            &&& rest.size == signed(false, rounded(gap(offload.size, filled), 1))
            &&& rest.asset_id == offload.asset_id
            &&& rest.is_buy == offload.is_buy
            &&& rest.limit_price == offload.limit_price
        },
{
    if filled.less(offload.size) {
        let size = offload.size;
        lemma_equals_zero(number(ZERO));
        lemma_equals_zero(filled);
        lemma_equals_zero(size);
        if filled.is_infinite() {
            lemma_magnitude_increases(size.code(), INFINITE as nat);
        }
        law_difference_has_the_sign_of_the_order(size, filled);
        let exact = gap(size, filled);
        law_rounding_stays_below(exact, 1, size.code());
        if rounded(exact, 1) < size.code() {
            lemma_magnitude_increases(rounded(exact, 1), size.code());
        }
    }
}

/// There is a worst price.
pub proof fn lemma_worst_code_exists(price: Binary64, is_buy: bool) -> (code: nat)
    requires
        price.is_finite(),
        !price.negative(),
    ensures
        is_worst_code(price.grains(), is_buy, code),
{
    let grains = price.grains();
    if is_buy {
        lemma_floor_exists(51 * grains, 50, (INFINITE - 1) as nat)
    } else {
        let low = lemma_floor_exists(49 * grains, 50, price.code());
        if 50 * magnitude(low) == 49 * grains {
            if low > 0 {
                lemma_magnitude_increases((low - 1) as nat, low);
            }
            low
        } else {
            low + 1
        }
    }
}

/// Moving dollars leaves the least gap between the two balances that moving any amount
/// in that direction can leave, and no conversion is made where none narrows the gap.
pub proof fn law_conversion_leaves_the_least_gap(balances: BalanceState, other: nat)
    requires
        balances.usdc.is_finite(),
        balances.usdh.is_finite(),
        other <= INFINITE,
    ensures
        ({
            let apart = gap(balances.usdc, balances.usdh);
            let moved = match rebalancing(balances) {
                Some(conversion) => conversion.amount.grains(),
                None => 0,
            };
            &&& remaining(apart, moved) <= remaining(apart, magnitude(other))
            &&& remaining(apart, moved) <= apart
            &&& apart == 2 * magnitude(other) ==> remaining(apart, moved) == 0
        }),
{
    let apart = gap(balances.usdc, balances.usdh);
    lemma_rounded_nearest(apart, 2);
    let code = rounded(apart, 2);
    assert(magnitude(0) == 0);
    assert(distance(apart, 2, code) <= distance(apart, 2, other));
    assert(distance(apart, 2, code) <= distance(apart, 2, 0));
}

/// How far two balances are apart after `moved` goes from the greater to the lesser, if
/// they were `apart` before.
pub open spec fn remaining(apart: nat, moved: nat) -> nat {
    if 2 * moved >= apart {
        (2 * moved - apart) as nat
    } else {
        (apart - 2 * moved) as nat
    }
}

/// A conversion takes from the greater balance, by an amount above zero, and if half of
/// the gap is a number it leaves both balances equal.
pub proof fn law_conversion_splits_evenly(balances: BalanceState, half: nat)
    requires
        balances.usdc.is_finite(),
        balances.usdh.is_finite(),
        0 < half < INFINITE,
        gap(balances.usdc, balances.usdh) == 2 * magnitude(half),
    ensures
        rebalancing(balances) matches Some(conversion) && {
            let amount = conversion.amount.value();
            &&& amount > 0
            &&& conversion.from_usdc ==> balances.usdc.value() - amount == balances.usdh.value()
                + amount
            &&& !conversion.from_usdc ==> balances.usdc.value() + amount == balances.usdh.value()
                - amount
        },
{
    law_rounding_keeps_exact(2, half);
    lemma_magnitude_increases(0, half);
}

} // verus!
