//! The executor: it keeps the latest prices and balances, and decides on trades.

use vstd::prelude::*;

use crate::binary64::Binary64;
use crate::settings::Settings;
use crate::settlement::{
    after_trade, find_rebalancing, follow_up, rebalancing, AfterTrade, Conversion,
};
use crate::strategy::{
    find_opportunity, number, opportunity, size_bought, trade, work_out, TradeParams,
    HYPE_USDC_ASSET_ID, HYPE_USDH_ASSET_ID, ZERO,
};

verus! {

/// The balances that are free to trade.
#[derive(Debug, Clone, Copy)]
pub struct BalanceState {
    pub usdc: Binary64,
    pub usdh: Binary64,
    pub hype: Binary64,
}

/// Why no trade is made.
#[derive(Debug, Clone, Copy)]
pub enum ArbitrageError {
    /// Some price is still zero.
    PricesNotInitialized,
    /// Neither direction earns more than the minimum.
    NoOpportunity,
    /// The USDH balance is below the trade size.
    InsufficientUsdh { need: Binary64, have: Binary64 },
    /// The USDC balance is below the trade size.
    InsufficientUsdc { need: Binary64, have: Binary64 },
}

/// What an attempt at a trade comes to.
#[derive(Debug, Clone, Copy)]
pub enum Attempt {
    /// A trade is under way already.
    AlreadyRunning,
    /// There is no trade to make.
    Rejected(ArbitrageError),
    /// The trade is to be placed. `hype_amount` is what the trade size buys.
    Place { trade_params: TradeParams, hype_amount: Binary64 },
}

/// The four prices of a price store: bid and ask of HYPE/USDH, bid and ask of
/// HYPE/USDC. There are none while one of them is zero.
pub open spec fn current_prices(store: Seq<Binary64>) -> Result<
    (Binary64, Binary64, Binary64, Binary64),
    ArbitrageError,
> {
    if store[1].is_zero() || store[3].is_zero() || store[5].is_zero() || store[7].is_zero() {
        Err(ArbitrageError::PricesNotInitialized)
    } else {
        Ok((store[1], store[3], store[5], store[7]))
    }
}

/// The trade that a price store calls for.
pub open spec fn opportunity_in(settings: Settings, store: Seq<Binary64>) -> Result<
    Option<TradeParams>,
    ArbitrageError,
> {
    match current_prices(store) {
        Ok((usdh_bid, usdh_ask, usdc_bid, usdc_ask)) => Ok(
            opportunity(settings, usdh_bid, usdh_ask, usdc_bid, usdc_ask),
        ),
        Err(e) => Err(e),
    }
}

/// Whether the balance of the currency that is spent covers the trade size.
pub open spec fn covered(
    settings: Settings,
    balances: BalanceState,
    trade_params: TradeParams,
) -> Result<(), ArbitrageError> {
    let need = settings.trade_size;
    if trade_params.buy_asset_id == HYPE_USDH_ASSET_ID {
        if balances.usdh.less(need) {
            Err(ArbitrageError::InsufficientUsdh { need, have: balances.usdh })
        } else {
            Ok(())
        }
    } else {
        if balances.usdc.less(need) {
            Err(ArbitrageError::InsufficientUsdc { need, have: balances.usdc })
        } else {
            Ok(())
        }
    }
}

/// The trade to place at the given prices and balances.
pub open spec fn planned(
    settings: Settings,
    store: Seq<Binary64>,
    balances: BalanceState,
) -> Result<TradeParams, ArbitrageError> {
    match opportunity_in(settings, store) {
        Err(e) => Err(e),
        Ok(None) => Err(ArbitrageError::NoOpportunity),
        Ok(Some(trade_params)) => match covered(settings, balances, trade_params) {
            Err(e) => Err(e),
            Ok(_) => Ok(trade_params),
        },
    }
}

/// What an attempt comes to, given whether a trade is under way.
pub open spec fn attempt_on(
    settings: Settings,
    executing: bool,
    store: Seq<Binary64>,
    balances: BalanceState,
) -> Attempt {
    if executing {
        Attempt::AlreadyRunning
    } else {
        match planned(settings, store, balances) {
            Ok(trade_params) => Attempt::Place {
                trade_params,
                hype_amount: size_bought(settings, trade_params.buy_price),
            },
            Err(e) => Attempt::Rejected(e),
        }
    }
}

/// The conversion to make now: none unless one is due and no trade is under way.
pub open spec fn conversion_due(
    due: bool,
    executing: bool,
    balances: BalanceState,
) -> Option<Conversion> {
    if due && !executing {
        rebalancing(balances)
    } else {
        None
    }
}

/// The trade that carries out a conversion: HYPE is bought with the one currency and
/// sold for the other, which takes the prices of both books.
pub open spec fn conversion_trade(
    settings: Settings,
    store: Seq<Binary64>,
    conversion: Conversion,
) -> Result<TradeParams, ArbitrageError> {
    let spent = Settings { trade_size: conversion.amount, ..settings };
    match current_prices(store) {
        Ok((usdh_bid, usdh_ask, usdc_bid, usdc_ask)) => Ok(
            if conversion.from_usdc {
                trade(spent, HYPE_USDC_ASSET_ID, usdc_ask, HYPE_USDH_ASSET_ID, usdh_bid)
            } else {
                trade(spent, HYPE_USDH_ASSET_ID, usdh_ask, HYPE_USDC_ASSET_ID, usdc_bid)
            },
        ),
        Err(e) => Err(e),
    }
}

/// Decides on trades. `C` is the client through which orders are sent.
pub struct ArbitrageExecutor<C> {
    client: C,
    balances: BalanceState,
    store: [Binary64; 8],
    is_executing: bool,
    rebalance_due: bool,
    settings: Settings,
}

impl<C> ArbitrageExecutor<C> {
    /// The client.
    pub closed spec fn exchange(&self) -> C {
        self.client
    }

    /// The latest balances.
    pub closed spec fn latest_balances(&self) -> BalanceState {
        self.balances
    }

    /// The latest prices.
    pub closed spec fn latest_prices(&self) -> Seq<Binary64> {
        self.store@
    }

    /// Whether a trade is under way.
    pub closed spec fn executing(&self) -> bool {
        self.is_executing
    }

    /// Whether a conversion is due when balances come in.
    pub closed spec fn due(&self) -> bool {
        self.rebalance_due
    }

    /// The settings.
    pub closed spec fn settings(&self) -> Settings {
        self.settings
    }

    /// There are two prices and two sizes of each book.
    pub proof fn lemma_eight_prices(&self)
        ensures
            self.latest_prices().len() == 8,
    {
    }

    /// An executor that knows no prices and no balances yet.
    pub fn new(client: C, settings: Settings) -> (r: ArbitrageExecutor<C>)
        ensures
            r.exchange() == client,
            r.settings() == settings,
            !r.due(),
            r.latest_balances() == (BalanceState {
                usdc: number(ZERO),
                usdh: number(ZERO),
                hype: number(ZERO),
            }),
            r.latest_prices() == Seq::new(8, |i: int| number(ZERO)),
            !r.executing(),
    {
        let zero = Binary64::from_bits(ZERO);
        let r = ArbitrageExecutor {
            client,
            balances: BalanceState { usdc: zero, usdh: zero, hype: zero },
            store: [zero, zero, zero, zero, zero, zero, zero, zero],
            is_executing: false,
            rebalance_due: false,
            settings,
        };
        assert(r.store@ == Seq::new(8, |i: int| number(ZERO)));
        r
    }

    /// The client through which orders are sent.
    pub fn client(&self) -> (r: &C)
        ensures
            *r == self.exchange(),
    {
        &self.client
    }

    /// The dollars to spend on one trade.
    pub fn trade_size(&self) -> (r: Binary64)
        ensures
            r == self.settings().trade_size,
    {
        self.settings.trade_size
    }

    /// Replaces the balances.
    pub fn update_balances(&mut self, usdc: Binary64, usdh: Binary64, hype: Binary64)
        ensures
            final(self).latest_balances() == (BalanceState { usdc, usdh, hype }),
            final(self).latest_prices() == old(self).latest_prices(),
            final(self).executing() == old(self).executing(),
            final(self).exchange() == old(self).exchange(),
            final(self).settings() == old(self).settings(),
            final(self).due() == old(self).due(),
    {
        self.balances = BalanceState { usdc, usdh, hype };
    }

    /// Replaces the prices.
    pub fn update_prices(&mut self, store: [Binary64; 8])
        ensures
            final(self).latest_prices() == store@,
            final(self).latest_balances() == old(self).latest_balances(),
            final(self).executing() == old(self).executing(),
            final(self).exchange() == old(self).exchange(),
            final(self).settings() == old(self).settings(),
            final(self).due() == old(self).due(),
    {
        self.store = store;
    }

    /// The bid and ask of HYPE/USDH and the bid and ask of HYPE/USDC, once all of
    /// them are known.
    pub fn get_current_prices(&self) -> (r: Result<
        (Binary64, Binary64, Binary64, Binary64),
        ArbitrageError,
    >)
        ensures
            r == current_prices(self.latest_prices()),
    {
        let usdh_bid = self.store[1];
        let usdh_ask = self.store[3];
        let usdc_bid = self.store[5];
        let usdc_ask = self.store[7];
        if usdh_bid.is_a_zero() || usdh_ask.is_a_zero() || usdc_bid.is_a_zero()
            || usdc_ask.is_a_zero() {
            return Err(ArbitrageError::PricesNotInitialized);
        }
        Ok((usdh_bid, usdh_ask, usdc_bid, usdc_ask))
    }

    /// The trade that the latest prices call for, if any.
    pub fn check_arbitrage_opportunity(&self) -> (r: Result<Option<TradeParams>, ArbitrageError>)
        ensures
            r == opportunity_in(self.settings(), self.latest_prices()),
    {
        match self.get_current_prices() {
            Ok((usdh_bid, usdh_ask, usdc_bid, usdc_ask)) => Ok(
                find_opportunity(&self.settings, usdh_bid, usdh_ask, usdc_bid, usdc_ask),
            ),
            Err(e) => Err(e),
        }
    }

    /// Whether there is enough of the currency that the trade spends.
    pub fn validate_sufficient_balance(&self, trade_params: &TradeParams) -> (r: Result<
        (),
        ArbitrageError,
    >)
        ensures
            r == covered(self.settings(), self.latest_balances(), *trade_params),
    {
        let need = self.settings.trade_size;
        if trade_params.buy_asset_id == HYPE_USDH_ASSET_ID {
            if self.balances.usdh.less_than(need) {
                return Err(ArbitrageError::InsufficientUsdh { need, have: self.balances.usdh });
            }
        } else {
            if self.balances.usdc.less_than(need) {
                return Err(ArbitrageError::InsufficientUsdc { need, have: self.balances.usdc });
            }
        }
        Ok(())
    }

    /// The trade as it is, with the amount of HYPE that the trade size buys.
    pub fn calculate_trade_params(&self, trade_params: TradeParams) -> (r: (TradeParams, Binary64))
        ensures
            r.0 == trade_params,
            r.1 == size_bought(self.settings(), trade_params.buy_price),
    {
        let hype_amount = self.settings.trade_size.over(trade_params.buy_price);
        (trade_params, hype_amount)
    }

    /// The steps from the latest prices to the trade that is to be placed.
    pub fn execute_arbitrage_internal(&self) -> (r: Result<
        (TradeParams, Binary64),
        ArbitrageError,
    >)
        ensures
            match planned(self.settings(), self.latest_prices(), self.latest_balances()) {
                Ok(trade_params) => r == Ok::<(TradeParams, Binary64), ArbitrageError>(
                    (trade_params, size_bought(self.settings(), trade_params.buy_price)),
                ),
                Err(e) => r == Err::<(TradeParams, Binary64), ArbitrageError>(e),
            },
    {
        let found = match self.check_arbitrage_opportunity() {
            Ok(Some(trade_params)) => trade_params,
            Ok(None) => {
                return Err(ArbitrageError::NoOpportunity);
            },
            Err(e) => {
                return Err(e);
            },
        };
        match self.validate_sufficient_balance(&found) {
            Ok(_) => Ok(self.calculate_trade_params(found)),
            Err(e) => Err(e),
        }
    }

    /// Attempts a trade unless one is under way. The executor is busy from the moment
    /// that a trade is to be placed until it is settled; an attempt that is rejected
    /// leaves it free.
    pub fn try_execute_arbitrage(&mut self) -> (r: Attempt)
        ensures
            r == attempt_on(
                old(self).settings(),
                old(self).executing(),
                old(self).latest_prices(),
                old(self).latest_balances(),
            ),
            final(self).executing() == !(r is Rejected),
            final(self).latest_prices() == old(self).latest_prices(),
            final(self).latest_balances() == old(self).latest_balances(),
            final(self).exchange() == old(self).exchange(),
            final(self).settings() == old(self).settings(),
            final(self).due() == old(self).due(),
    {
        if self.is_executing {
            return Attempt::AlreadyRunning;
        }
        self.is_executing = true;
        match self.execute_arbitrage_internal() {
            Ok((trade_params, hype_amount)) => Attempt::Place { trade_params, hype_amount },
            Err(e) => {
                self.is_executing = false;
                Attempt::Rejected(e)
            },
        }
    }

    /// Settles the trade that was placed, given the HYPE that its legs bought and sold,
    /// and decides what is left to do of it. The executor is free again, and a
    /// conversion is due when balances come in. The sizes in `trade_params` are those
    /// that were ordered.
    pub fn settle(&mut self, trade_params: &TradeParams, bought: Binary64, sold: Binary64) -> (r:
        AfterTrade)
        ensures
            r == after_trade(*trade_params, bought, sold),
            !final(self).executing(),
            final(self).due(),
            final(self).latest_prices() == old(self).latest_prices(),
            final(self).latest_balances() == old(self).latest_balances(),
            final(self).exchange() == old(self).exchange(),
            final(self).settings() == old(self).settings(),
    {
        self.is_executing = false;
        self.rebalance_due = true;
        follow_up(trade_params, bought, sold)
    }

    /// The conversion to make now, if any. Afterwards none is due until the next trade
    /// is settled, unless a trade is under way.
    pub fn rebalance(&mut self) -> (r: Option<Conversion>)
        ensures
            r == conversion_due(
                old(self).due(),
                old(self).executing(),
                old(self).latest_balances(),
            ),
            final(self).due() == (old(self).due() && old(self).executing()),
            final(self).executing() == old(self).executing(),
            final(self).latest_prices() == old(self).latest_prices(),
            final(self).latest_balances() == old(self).latest_balances(),
            final(self).exchange() == old(self).exchange(),
            final(self).settings() == old(self).settings(),
    {
        if self.rebalance_due && !self.is_executing {
            self.rebalance_due = false;
            find_rebalancing(&self.balances)
        } else {
            None
        }
    }

    /// The trade that carries out a conversion at the latest prices.
    pub fn plan_conversion(&self, conversion: &Conversion) -> (r: Result<
        TradeParams,
        ArbitrageError,
    >)
        ensures
            r == conversion_trade(self.settings(), self.latest_prices(), *conversion),
    {
        let spent = Settings {
            trade_size: conversion.amount,
            minimum_profit: self.settings.minimum_profit,
        };
        match self.get_current_prices() {
            Ok((usdh_bid, usdh_ask, usdc_bid, usdc_ask)) => Ok(
                if conversion.from_usdc {
                    work_out(&spent, HYPE_USDC_ASSET_ID, usdc_ask, HYPE_USDH_ASSET_ID, usdh_bid)
                } else {
                    work_out(&spent, HYPE_USDH_ASSET_ID, usdh_ask, HYPE_USDC_ASSET_ID, usdc_bid)
                },
            ),
            Err(e) => Err(e),
        }
    }
}

} // verus!
