//! What the operator sets.

use vstd::prelude::*;

use crate::binary64::Binary64;
use crate::decimal::parsed;
use crate::strategy::{number, TRADE_SIZE_USDH, ZERO};

verus! {

/// The settings of the strategy.
#[derive(Debug, Clone, Copy)]
pub struct Settings {
    /// The dollars to spend on one trade.
    pub trade_size: Binary64,
    /// What a trade has to earn beyond the taker fees on both legs.
    pub minimum_profit: Binary64,
}

/// A setting that could not be read as a number from zero on.
#[derive(Debug, Clone, Copy)]
pub enum SettingsError {
    TradeSize,
    MinimumProfit,
}

/// Whether `x` is a number from zero on.
pub open spec fn from_zero_on(x: Binary64) -> bool {
    !x.is_nan() && !x.less(number(ZERO))
}

/// The number from zero on that `text` spells, if it spells one.
pub open spec fn amount_in(text: Seq<char>) -> Option<Binary64> {
    match parsed(text) {
        Some(x) => if from_zero_on(x) {
            Some(x)
        } else {
            None
        },
        None => None,
    }
}

/// Reads a number from zero on.
fn read_amount(text: &str) -> (r: Option<Binary64>)
    ensures
        r == amount_in(text@),
{
    match Binary64::parse(text) {
        Some(x) => if x.is_not_a_number() || x.less_than(Binary64::from_bits(ZERO)) {
            None
        } else {
            Some(x)
        },
        None => None,
    }
}

/// The settings that two texts spell, if both spell one.
pub open spec fn settings_in(trade_size: Seq<char>, minimum_profit: Seq<char>) -> Result<
    Settings,
    SettingsError,
> {
    match (amount_in(trade_size), amount_in(minimum_profit)) {
        (None, _) => Err(SettingsError::TradeSize),
        (Some(_), None) => Err(SettingsError::MinimumProfit),
        (Some(size), Some(minimum)) => Ok(Settings { trade_size: size, minimum_profit: minimum }),
    }
}

impl Settings {
    /// Whether both settings are numbers from zero on.
    pub open spec fn sensible(self) -> bool {
        from_zero_on(self.trade_size) && from_zero_on(self.minimum_profit)
    }

    /// Reads the settings from text.
    pub fn read(trade_size: &str, minimum_profit: &str) -> (r: Result<Settings, SettingsError>)
        ensures
            r == settings_in(trade_size@, minimum_profit@),
            r matches Ok(settings) ==> settings.sensible(),
    {
        match (read_amount(trade_size), read_amount(minimum_profit)) {
            (None, _) => Err(SettingsError::TradeSize),
            (Some(_), None) => Err(SettingsError::MinimumProfit),
            (Some(size), Some(minimum)) => Ok(
                Settings { trade_size: size, minimum_profit: minimum },
            ),
        }
    }
}

impl Default for Settings {
    /// Twenty dollars, and no minimum beyond the fees.
    fn default() -> (r: Settings)
        ensures
            r.trade_size == number(TRADE_SIZE_USDH),
            r.minimum_profit == number(ZERO),
    {
        Settings {
            trade_size: Binary64::from_bits(TRADE_SIZE_USDH),
            minimum_profit: Binary64::from_bits(ZERO),
        }
    }
}

} // verus!
