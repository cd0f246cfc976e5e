//! Laws of the decisions: which trade the prices call for, what it consists of, and when
//! it is placed.

use vstd::prelude::*;

use crate::arithmetic::{difference, product, quotient};
use crate::binary64::Binary64;
use crate::decimal::parsed;
use crate::executor::{
    attempt_on, conversion_due, conversion_trade, current_prices, opportunity_in, planned,
    ArbitrageError, Attempt, BalanceState,
};
use crate::settings::{amount_in, settings_in, Settings};
use crate::settlement::{rebalancing, Conversion};
use crate::strategy::{size_bought, TradeParams};

verus! {

/// A trade as a whole buys at the ask of one book and sells at the bid of the other: with
/// USDC it buys on asset 107 at entry 7 and sells on asset 232 at entry 1, with USDH it
/// buys on asset 232 at entry 3 and sells on asset 107 at entry 5.
pub open spec fn crosses_the_books(store: Seq<Binary64>, t: TradeParams) -> bool {
    ||| t.buy_asset_id == 107 && t.buy_price == store[7] && t.sell_asset_id == 232 && t.sell_price
        == store[1]
    ||| t.buy_asset_id == 232 && t.buy_price == store[3] && t.sell_asset_id == 107 && t.sell_price
        == store[5]
}

/// The prices of a store are its entries 1, 3, 5 and 7: bid and ask of HYPE/USDH, bid and
/// ask of HYPE/USDC. They are there exactly if none of them is zero, of either sign.
pub proof fn law_prices_are_entries_of_the_store(store: Seq<Binary64>)
    ensures
        current_prices(store) is Ok <==> {
            &&& store[1].code() != 0
            &&& store[3].code() != 0
            &&& store[5].code() != 0
            &&& store[7].code() != 0
        },
        current_prices(store) matches Ok((usdh_bid, usdh_ask, usdc_bid, usdc_ask)) ==> {
            &&& usdh_bid == store[1]
            &&& usdh_ask == store[3]
            &&& usdc_bid == store[5]
            &&& usdc_ask == store[7]
        },
        current_prices(store) matches Err(e) ==> e is PricesNotInitialized,
{
}

/// A trade that is found or planned from a store buys at the ask of one book, on that
/// book, and sells at the bid of the other, on that other one.
pub proof fn law_trade_crosses_the_latest_books(
    settings: Settings,
    store: Seq<Binary64>,
    balances: BalanceState,
)
    ensures
        opportunity_in(settings, store) matches Ok(Some(t)) ==> crosses_the_books(store, t),
        planned(settings, store, balances) matches Ok(t) ==> crosses_the_books(store, t),
        attempt_on(settings, false, store, balances) matches Attempt::Place { trade_params, .. }
            ==> crosses_the_books(store, trade_params),
        opportunity_in(settings, store) is Err <==> store[1].code() == 0 || store[3].code() == 0
            || store[5].code() == 0 || store[7].code() == 0,
        opportunity_in(settings, store) matches Err(e) ==> e is PricesNotInitialized,
{
}

/// The sizes in a store have no bearing on anything: two stores with the same prices lead
/// to the same trade, the same attempt and the same way to carry out a conversion.
pub proof fn law_sizes_in_the_store_have_no_bearing(
    settings: Settings,
    one: Seq<Binary64>,
    two: Seq<Binary64>,
    executing: bool,
    balances: BalanceState,
    conversion: Conversion,
)
    requires
        one[1] == two[1],
        one[3] == two[3],
        one[5] == two[5],
        one[7] == two[7],
    ensures
        current_prices(one) == current_prices(two),
        opportunity_in(settings, one) == opportunity_in(settings, two),
        planned(settings, one, balances) == planned(settings, two, balances),
        attempt_on(settings, executing, one, balances) == attempt_on(
            settings,
            executing,
            two,
            balances,
        ),
        conversion_trade(settings, one, conversion) == conversion_trade(settings, two, conversion),
{
}

/// The amounts of a trade that is found: the trade size divided by the buying price is
/// bought, 99.9328% of that is sold, and the expected profit is the spread times the size,
/// less two taker fees of 0.0672% on the trade size. Each step is the nearest number.
pub proof fn law_amounts_of_a_trade(
    settings: Settings,
    store: Seq<Binary64>,
    balances: BalanceState,
)
    ensures
        opportunity_in(settings, store) matches Ok(Some(t)) ==> has_amounts(settings.trade_size, t),
        planned(settings, store, balances) matches Ok(t) ==> has_amounts(settings.trade_size, t),
{
}

/// Whether the amounts of a trade fit the dollars that it spends and its prices.
pub open spec fn has_amounts(spent: Binary64, t: TradeParams) -> bool {
    let rate = Binary64 { bits: 0x3f46_0525_02ee_c7c9 };
    let one = Binary64 { bits: 0x3ff0_0000_0000_0000 };
    let two = Binary64 { bits: 0x4000_0000_0000_0000 };
    &&& t.buy_size == quotient(spent, t.buy_price)
    &&& t.sell_size == product(t.buy_size, difference(one, rate))
    &&& t.expected_profit_usd == difference(
        product(difference(t.sell_price, t.buy_price), t.buy_size),
        product(product(spent, rate), two),
    )
}

/// Of the two directions, given as the trades that they would make: one is found exactly
/// if it earns more than the minimum, buying with USDC only if it also earns more than
/// buying with USDH, and otherwise buying with USDH.
pub proof fn law_direction_that_is_found(
    settings: Settings,
    store: Seq<Binary64>,
    with_usdc: TradeParams,
    with_usdh: TradeParams,
)
    requires
        store[1].code() != 0,
        store[3].code() != 0,
        store[5].code() != 0,
        store[7].code() != 0,
        has_amounts(settings.trade_size, with_usdc),
        has_amounts(settings.trade_size, with_usdh),
        with_usdc.buy_asset_id == 107 && with_usdc.sell_asset_id == 232,
        with_usdh.buy_asset_id == 232 && with_usdh.sell_asset_id == 107,
        with_usdc.buy_price == store[7] && with_usdc.sell_price == store[1],
        with_usdh.buy_price == store[3] && with_usdh.sell_price == store[5],
    ensures
        ({
            let found = opportunity_in(settings, store);
            let one = with_usdc.expected_profit_usd;
            let two = with_usdh.expected_profit_usd;
            let minimum = settings.minimum_profit;
            let one_earns = !minimum.is_nan() && !one.is_nan() && minimum.value() < one.value();
            let two_earns = !minimum.is_nan() && !two.is_nan() && minimum.value() < two.value();
            let one_is_more = !one.is_nan() && !two.is_nan() && two.value() < one.value();
            &&& one_earns && one_is_more ==> found == Ok::<Option<TradeParams>, ArbitrageError>(
                Some(with_usdc),
            )
            &&& two_earns && !(one_earns && one_is_more) ==> found == Ok::<
                Option<TradeParams>,
                ArbitrageError,
            >(Some(with_usdh))
            &&& !two_earns && !(one_earns && one_is_more) ==> found == Ok::<
                Option<TradeParams>,
                ArbitrageError,
            >(None)
        }),
{
}

/// A trade that is found is planned exactly if the balance of the currency that it spends
/// is not below the trade size, whatever the other balances are. If it is below, the
/// rejection says what is needed and what is there.
pub proof fn law_covered_trade_is_planned(
    settings: Settings,
    store: Seq<Binary64>,
    balances: BalanceState,
    t: TradeParams,
)
    requires
        opportunity_in(settings, store) == Ok::<Option<TradeParams>, ArbitrageError>(Some(t)),
    ensures
        ({
            let need = settings.trade_size;
            let have = if t.buy_asset_id == 232 {
                balances.usdh
            } else {
                balances.usdc
            };
            let short = !need.is_nan() && !have.is_nan() && have.value() < need.value();
            let plan = planned(settings, store, balances);
            &&& !short ==> plan == Ok::<TradeParams, ArbitrageError>(t)
            &&& short && t.buy_asset_id == 232 ==> plan == Err::<TradeParams, ArbitrageError>(
                ArbitrageError::InsufficientUsdh { need, have },
            )
            &&& short && t.buy_asset_id == 107 ==> plan == Err::<TradeParams, ArbitrageError>(
                ArbitrageError::InsufficientUsdc { need, have },
            )
            &&& t.buy_asset_id == 232 || t.buy_asset_id == 107
        }),
{
}

/// The reason for which no trade is planned holds: a price is missing, nothing was found,
/// or the balance of the currency that the found trade spends is below the trade size.
pub proof fn law_rejection_is_justified(
    settings: Settings,
    store: Seq<Binary64>,
    balances: BalanceState,
)
    ensures
        planned(settings, store, balances) matches Err(e) ==> match e {
            ArbitrageError::PricesNotInitialized => store[1].code() == 0 || store[3].code() == 0
                || store[5].code() == 0 || store[7].code() == 0,
            ArbitrageError::NoOpportunity => opportunity_in(settings, store) == Ok::<
                Option<TradeParams>,
                ArbitrageError,
            >(None),
            ArbitrageError::InsufficientUsdh { need, have } => {
                &&& need == settings.trade_size && have == balances.usdh
                &&& have.value() < need.value()
                &&& opportunity_in(settings, store) matches Ok(Some(t)) && t.buy_asset_id == 232
            },
            ArbitrageError::InsufficientUsdc { need, have } => {
                &&& need == settings.trade_size && have == balances.usdc
                &&& have.value() < need.value()
                &&& opportunity_in(settings, store) matches Ok(Some(t)) && t.buy_asset_id == 107
            },
        },
        planned(settings, store, balances) matches Ok(t) ==> opportunity_in(settings, store)
            == Ok::<Option<TradeParams>, ArbitrageError>(Some(t)),
{
}

/// The balance that is not spent has no bearing, and more of the one that is spent does
/// no harm.
pub proof fn law_more_to_spend_does_no_harm(
    settings: Settings,
    store: Seq<Binary64>,
    less: BalanceState,
    more: BalanceState,
)
    requires
        planned(settings, store, less) matches Ok(t) && {
            ||| t.buy_asset_id == 232 && less.usdh.value() <= more.usdh.value()
                && !less.usdh.is_nan()
            ||| t.buy_asset_id == 107 && less.usdc.value() <= more.usdc.value()
                && !less.usdc.is_nan()
        },
    ensures
        planned(settings, store, more) == planned(settings, store, less),
{
}

/// What an attempt comes to: nothing while a trade is under way, and otherwise the
/// planned trade or the reason that there is none. With a trade comes what the trade size
/// buys at its price.
pub proof fn law_attempt_follows_the_plan(
    settings: Settings,
    executing: bool,
    store: Seq<Binary64>,
    balances: BalanceState,
)
    ensures
        attempt_on(settings, executing, store, balances) is AlreadyRunning <==> executing,
        attempt_on(settings, executing, store, balances) matches Attempt::Place {
            trade_params,
            hype_amount,
        } ==> {
            &&& !executing
            &&& planned(settings, store, balances) == Ok::<TradeParams, ArbitrageError>(
                trade_params,
            )
            &&& hype_amount == quotient(settings.trade_size, trade_params.buy_price)
            &&& hype_amount == trade_params.buy_size
        },
        attempt_on(settings, executing, store, balances) matches Attempt::Rejected(e) ==> {
            &&& !executing
            &&& planned(settings, store, balances) == Err::<TradeParams, ArbitrageError>(e)
        },
{
}

/// What the trade size buys is the trade size divided by the price.
pub proof fn law_size_is_dollars_by_price(settings: Settings, ask: Binary64)
    ensures
        size_bought(settings, ask) == quotient(settings.trade_size, ask),
{
}

/// A conversion is made if one is due and no trade is under way, and then it is the one
/// that the balances call for.
pub proof fn law_conversion_waits_for_its_turn(
    due: bool,
    executing: bool,
    balances: BalanceState,
)
    ensures
        due && !executing ==> conversion_due(due, executing, balances) == rebalancing(balances),
        !due ==> conversion_due(due, executing, balances) is None,
        executing ==> conversion_due(due, executing, balances) is None,
{
}

/// The trade of a conversion spends the currency that is converted and receives the
/// other: USDC buys on asset 107 at entry 7 and HYPE is sold on asset 232 at entry 1, USDH
/// buys on asset 232 at entry 3 and HYPE is sold on asset 107 at entry 5. It spends the
/// amount that is converted, and needs all four prices.
pub proof fn law_conversion_spends_what_it_converts(
    settings: Settings,
    store: Seq<Binary64>,
    conversion: Conversion,
)
    ensures
        conversion_trade(settings, store, conversion) matches Ok(t) ==> {
            &&& conversion.from_usdc ==> t.buy_asset_id == 107 && t.buy_price == store[7]
                && t.sell_asset_id == 232 && t.sell_price == store[1]
            &&& !conversion.from_usdc ==> t.buy_asset_id == 232 && t.buy_price == store[3]
                && t.sell_asset_id == 107 && t.sell_price == store[5]
            &&& has_amounts(conversion.amount, t)
        },
        conversion_trade(settings, store, conversion) is Err <==> store[1].code() == 0
            || store[3].code() == 0 || store[5].code() == 0 || store[7].code() == 0,
        conversion_trade(settings, store, conversion) matches Err(e) ==> e is PricesNotInitialized,
{
}

/// The trade that splits the dollars evenly buys on the book of the greater balance.
pub proof fn law_rebalancing_buys_with_the_greater_balance(
    settings: Settings,
    store: Seq<Binary64>,
    balances: BalanceState,
)
    ensures
        rebalancing(balances) matches Some(conversion) ==> (conversion_trade(
            settings,
            store,
            conversion,
        ) matches Ok(t) ==> {
            &&& balances.usdc.value() > balances.usdh.value() ==> t.buy_asset_id == 107
                && t.sell_asset_id == 232
            &&& balances.usdc.value() < balances.usdh.value() ==> t.buy_asset_id == 232
                && t.sell_asset_id == 107
        }),
{
}

/// A setting is the number that its text spells, if that is a number from zero on. The
/// settings are there exactly if both are, and the trade size is complained of first.
pub proof fn law_settings_are_what_their_texts_say(size: Seq<char>, minimum: Seq<char>)
    ensures
        ({
            let size_ok = parsed(size) matches Some(x) && !x.is_nan() && x.value() >= 0;
            let minimum_ok = parsed(minimum) matches Some(x) && !x.is_nan() && x.value() >= 0;
            let r = settings_in(size, minimum);
            &&& r is Ok <==> size_ok && minimum_ok
            &&& r matches Ok(settings) ==> {
                &&& parsed(size) == Some(settings.trade_size)
                &&& parsed(minimum) == Some(settings.minimum_profit)
            }
            &&& r matches Err(e) ==> (e is TradeSize <==> !size_ok)
        }),
        amount_in(size) matches Some(x) ==> parsed(size) == Some(x),
{
}

} // verus!
