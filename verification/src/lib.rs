//! Arbitrage between the HYPE/USDC and HYPE/USDH order books.

pub mod binary64;
pub mod rounding;
pub mod arithmetic;
pub mod natural;
pub mod ratio;
pub mod decimal;
pub mod text;
pub mod settings;
pub mod strategy;
pub mod executor;
pub mod feed;
pub mod subscription;
pub mod client;
pub mod orders;
pub mod settlement;
pub mod numeric_laws;
pub mod arithmetic_laws;
pub mod reading_laws;
pub mod trading_laws;
pub mod run_laws;
pub mod decision_laws;
pub mod order_laws;
pub mod market_laws;
pub mod settlement_laws;
