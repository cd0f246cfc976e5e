//! The trade that a pair of order books calls for.

use vstd::prelude::*;

use crate::arithmetic::{difference, product, quotient};
use crate::binary64::Binary64;
use crate::settings::Settings;

verus! {

/// The spot index of HYPE/USDH.
pub const HYPE_USDH_ASSET_ID: u32 = 232;

/// The spot index of HYPE/USDC.
pub const HYPE_USDC_ASSET_ID: u32 = 107;

/// The bits of the taker fee rate, 0.000672 (0.0672%).
pub const TAKER_FEE_RATE: u64 = 0x3f46_0525_02ee_c7c9;

/// The bits of the trade size unless another one is set, twenty dollars.
pub const TRADE_SIZE_USDH: u64 = 0x4034_0000_0000_0000;

/// The bits of zero.
pub const ZERO: u64 = 0;

/// The bits of one.
pub const ONE: u64 = 0x3ff0_0000_0000_0000;

/// The bits of two.
pub const TWO: u64 = 0x4000_0000_0000_0000;

/// Both legs of a trade: HYPE is bought on one book and sold on the other.
#[derive(Debug, Clone, Copy)]
pub struct TradeParams {
    /// The book on which to buy.
    pub buy_asset_id: u32,
    /// The price at which to buy.
    pub buy_price: Binary64,
    /// The amount of HYPE to buy.
    pub buy_size: Binary64,
    /// The book on which to sell.
    pub sell_asset_id: u32,
    /// The price at which to sell.
    pub sell_price: Binary64,
    /// The amount of HYPE to sell, which is what is left after the fee on buying.
    pub sell_size: Binary64,
    /// What the trade is expected to earn.
    pub expected_profit_usd: Binary64,
}

/// The number with the given bits.
pub open spec fn number(bits: u64) -> Binary64 {
    Binary64 { bits }
}

/// The amount of HYPE that the trade size buys at `ask`.
pub open spec fn size_bought(settings: Settings, ask: Binary64) -> Binary64 {
    quotient(settings.trade_size, ask)
}

/// The part of an amount that the taker fee leaves.
pub open spec fn kept_part() -> Binary64 {
    difference(number(ONE), number(TAKER_FEE_RATE))
}

/// What is left of `size` after the taker fee.
pub open spec fn size_after_fee(size: Binary64) -> Binary64 {
    product(size, kept_part())
}

/// The taker fees on both legs.
pub open spec fn fees(settings: Settings) -> Binary64 {
    product(product(settings.trade_size, number(TAKER_FEE_RATE)), number(TWO))
}

/// What buying at `ask` and selling at `bid` earns before fees.
pub open spec fn gross(settings: Settings, bid: Binary64, ask: Binary64) -> Binary64 {
    product(difference(bid, ask), size_bought(settings, ask))
}

/// What buying at `ask` and selling at `bid` earns after fees.
pub open spec fn profit(settings: Settings, bid: Binary64, ask: Binary64) -> Binary64 {
    difference(gross(settings, bid, ask), fees(settings))
}

/// The trade that buys at `ask` on one book and sells at `bid` on the other.
pub open spec fn trade(
    settings: Settings,
    buy_asset_id: u32,
    ask: Binary64,
    sell_asset_id: u32,
    bid: Binary64,
) -> TradeParams {
    TradeParams {
        buy_asset_id,
        buy_price: ask,
        buy_size: size_bought(settings, ask),
        sell_asset_id,
        sell_price: bid,
        sell_size: size_after_fee(size_bought(settings, ask)),
        expected_profit_usd: profit(settings, bid, ask),
    }
}

/// The trade to make at the given prices, if any: buying with USDC if that earns more
/// than the minimum and more than buying with USDH does, or else buying with USDH if
/// that earns more than the minimum.
pub open spec fn opportunity(
    settings: Settings,
    usdh_bid: Binary64,
    usdh_ask: Binary64,
    usdc_bid: Binary64,
    usdc_ask: Binary64,
) -> Option<TradeParams> {
    let with_usdc = profit(settings, usdh_bid, usdc_ask);
    let with_usdh = profit(settings, usdc_bid, usdh_ask);
    if settings.minimum_profit.less(with_usdc) && with_usdh.less(with_usdc) {
        Some(trade(settings, HYPE_USDC_ASSET_ID, usdc_ask, HYPE_USDH_ASSET_ID, usdh_bid))
    } else if settings.minimum_profit.less(with_usdh) {
        Some(trade(settings, HYPE_USDH_ASSET_ID, usdh_ask, HYPE_USDC_ASSET_ID, usdc_bid))
    } else {
        None
    }
}

/// What is left of `size` after the taker fee.
pub fn after_fee(size: Binary64) -> (r: Binary64)
    ensures
        r == size_after_fee(size),
{
    size.times(Binary64::from_bits(ONE).minus(Binary64::from_bits(TAKER_FEE_RATE)))
}

/// Works out the trade that buys at `ask` on one book and sells at `bid` on the other.
pub fn work_out(
    settings: &Settings,
    buy_asset_id: u32,
    ask: Binary64,
    sell_asset_id: u32,
    bid: Binary64,
) -> (r: TradeParams)
    ensures
        r == trade(*settings, buy_asset_id, ask, sell_asset_id, bid),
{
    let fee_rate = Binary64::from_bits(TAKER_FEE_RATE);
    let fees = settings.trade_size.times(fee_rate).times(Binary64::from_bits(TWO));
    let size = settings.trade_size.over(ask);
    TradeParams {
        buy_asset_id,
        buy_price: ask,
        buy_size: size,
        sell_asset_id,
        sell_price: bid,
        sell_size: after_fee(size),
        expected_profit_usd: bid.minus(ask).times(size).minus(fees),
    }
}

/// Finds the trade to make at the given prices.
pub fn find_opportunity(
    settings: &Settings,
    usdh_bid: Binary64,
    usdh_ask: Binary64,
    usdc_bid: Binary64,
    usdc_ask: Binary64,
) -> (r: Option<TradeParams>)
    ensures
        r == opportunity(*settings, usdh_bid, usdh_ask, usdc_bid, usdc_ask),
{
    let with_usdc = work_out(settings, HYPE_USDC_ASSET_ID, usdc_ask, HYPE_USDH_ASSET_ID, usdh_bid);
    let with_usdh = work_out(settings, HYPE_USDH_ASSET_ID, usdh_ask, HYPE_USDC_ASSET_ID, usdc_bid);
    let profit_1 = with_usdc.expected_profit_usd;
    let profit_2 = with_usdh.expected_profit_usd;
    if settings.minimum_profit.less_than(profit_1) && profit_2.less_than(profit_1) {
        Some(with_usdc)
    } else if settings.minimum_profit.less_than(profit_2) {
        Some(with_usdh)
    } else {
        None
    }
}

} // verus!
