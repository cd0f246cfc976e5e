use arb_bot::binary64::Binary64;
use arb_bot::executor::{ArbitrageError, ArbitrageExecutor, Attempt};
use arb_bot::settlement::AfterTrade;
use arb_bot::settings::{Settings, SettingsError};
use arb_bot::strategy::{
    after_fee, find_opportunity, TradeParams, HYPE_USDC_ASSET_ID, HYPE_USDH_ASSET_ID, ONE, TAKER_FEE_RATE,
    TRADE_SIZE_USDH, TWO, ZERO,
};

fn b(x: f64) -> Binary64 {
    Binary64::from_bits(x.to_bits())
}

fn f(x: Binary64) -> f64 {
    f64::from_bits(x.to_bits())
}

fn settings(trade_size: f64, minimum_profit: f64) -> Settings {
    Settings { trade_size: b(trade_size), minimum_profit: b(minimum_profit) }
}

fn store(usdh_bid: f64, usdh_ask: f64, usdc_bid: f64, usdc_ask: f64) -> [Binary64; 8] {
    [
        b(5.0),
        b(usdh_bid),
        b(6.0),
        b(usdh_ask),
        b(7.0),
        b(usdc_bid),
        b(8.0),
        b(usdc_ask),
    ]
}

fn executor(prices: [Binary64; 8], usdc: f64, usdh: f64) -> ArbitrageExecutor<()> {
    let mut e = ArbitrageExecutor::new((), Settings::default());
    e.update_prices(prices);
    e.update_balances(b(usdc), b(usdh), b(0.0));
    e
}

/// Buying asset, buying price and size, selling asset, selling price and size, profit.
type Expected = (u32, f64, f64, u32, f64, f64, f64);

fn expected(usdh_bid: f64, usdh_ask: f64, usdc_bid: f64, usdc_ask: f64) -> Option<Expected> {
    expected_for(20.0, 0.0, usdh_bid, usdh_ask, usdc_bid, usdc_ask)
}

fn expected_for(
    trade_size: f64,
    minimum: f64,
    usdh_bid: f64,
    usdh_ask: f64,
    usdc_bid: f64,
    usdc_ask: f64,
) -> Option<Expected> {
    let fee = 0.000672;
    let sz_usdc = trade_size / usdc_ask;
    let sz_usdh = trade_size / usdh_ask;
    let profit_1 = ((usdh_bid - usdc_ask) * sz_usdc) - (trade_size * fee * 2.0);
    let profit_2 = ((usdc_bid - usdh_ask) * sz_usdh) - (trade_size * fee * 2.0);
    if profit_1 > minimum && profit_1 > profit_2 {
        return Some((107, usdc_ask, sz_usdc, 232, usdh_bid, sz_usdc * (1.0 - fee), profit_1));
    }
    if profit_2 > minimum {
        return Some((232, usdh_ask, sz_usdh, 107, usdc_bid, sz_usdh * (1.0 - fee), profit_2));
    }
    None
}

fn agrees(t: &TradeParams, x: &Expected) {
    assert_eq!(t.buy_asset_id, x.0);
    assert_eq!(f(t.buy_price).to_bits(), x.1.to_bits());
    assert_eq!(f(t.buy_size).to_bits(), x.2.to_bits());
    assert_eq!(t.sell_asset_id, x.3);
    assert_eq!(f(t.sell_price).to_bits(), x.4.to_bits());
    assert_eq!(f(t.sell_size).to_bits(), x.5.to_bits());
    assert_eq!(f(t.expected_profit_usd).to_bits(), x.6.to_bits());
}

fn compare_prices(usdh_bid: f64, usdh_ask: f64, usdc_bid: f64, usdc_ask: f64) -> Option<TradeParams> {
    let found = find_opportunity(&Settings::default(), b(usdh_bid), b(usdh_ask), b(usdc_bid), b(usdc_ask));
    match (&found, expected(usdh_bid, usdh_ask, usdc_bid, usdc_ask)) {
        (Some(t), Some(x)) => agrees(t, &x),
        (None, None) => {}
        _ => panic!("{} {} {} {}", usdh_bid, usdh_ask, usdc_bid, usdc_ask),
    }
    found
}

#[test]
fn constants_are_the_numbers_they_are_known_by() {
    assert_eq!(TAKER_FEE_RATE, 0.000672f64.to_bits());
    assert_eq!(TRADE_SIZE_USDH, 20.0f64.to_bits());
    assert_eq!(ZERO, 0.0f64.to_bits());
    assert_eq!(ONE, 1.0f64.to_bits());
    assert_eq!(TWO, 2.0f64.to_bits());
    assert_eq!(HYPE_USDH_ASSET_ID, 232);
    assert_eq!(HYPE_USDC_ASSET_ID, 107);
}

#[test]
fn usdc_buys_when_usdh_pays_more() {
    let t = compare_prices(47.5, 47.6, 47.0, 47.1).unwrap();
    assert_eq!(t.buy_asset_id, 107);
    assert_eq!(t.sell_asset_id, 232);
    assert_eq!(f(t.buy_size), 20.0 / 47.1);
    assert_eq!(f(t.sell_size), 20.0 / 47.1 * (1.0 - 0.000672));
    assert_eq!(f(t.expected_profit_usd), (47.5 - 47.1) * (20.0 / 47.1) - 20.0 * 0.000672 * 2.0);
    assert!(f(t.buy_price) < f(t.sell_price));
    assert!(f(t.sell_size) < f(t.buy_size));
}

#[test]
fn usdh_buys_when_usdc_pays_more() {
    let t = compare_prices(47.0, 47.1, 47.5, 47.6).unwrap();
    assert_eq!(t.buy_asset_id, 232);
    assert_eq!(t.sell_asset_id, 107);
    assert_eq!(f(t.buy_price), 47.1);
    assert_eq!(f(t.sell_price), 47.5);
}

#[test]
fn a_spread_within_the_fees_is_no_opportunity() {
    assert!(compare_prices(47.12, 47.13, 47.09, 47.1).is_none());
    assert!(compare_prices(47.0, 47.1, 47.0, 47.1).is_none());
}

#[test]
fn the_better_direction_is_taken_when_both_earn() {
    let t = compare_prices(50.0, 40.0, 45.0, 40.0).unwrap();
    assert_eq!(t.buy_asset_id, 107);
    let t = compare_prices(45.0, 40.0, 50.0, 40.0).unwrap();
    assert_eq!(t.buy_asset_id, 232);
    let t = compare_prices(50.0, 40.0, 50.0, 40.0).unwrap();
    assert_eq!(t.buy_asset_id, 232);
}

#[test]
fn odd_prices_agree_with_the_machine() {
    let values = [
        0.0,
        -0.0,
        1e-320,
        1e-10,
        47.1,
        47.9,
        1e308,
        -3.0,
        -1.0,
        f64::INFINITY,
        f64::NEG_INFINITY,
        f64::NAN,
    ];
    for a in values {
        for x in values {
            for y in values {
                for z in values {
                    compare_prices(a, x, y, z);
                }
            }
        }
    }
}

#[test]
fn random_prices_agree_with_the_machine() {
    let mut state = 5u64;
    let mut price = || {
        state = state.wrapping_mul(6364136223846793005).wrapping_add(1442695040888963407);
        47.0 + ((state >> 44) as f64) / 1048576.0
    };
    let mut trades = 0;
    for _ in 0..5000 {
        if compare_prices(price(), price(), price(), price()).is_some() {
            trades += 1;
        }
    }
    assert!(trades > 100);
}

#[test]
fn negative_prices_can_buy_dearer() {
    let t = compare_prices(-3.0, -3.0, -3.0, -1.0).unwrap();
    assert_eq!(f(t.buy_price), -1.0);
    assert_eq!(f(t.sell_price), -3.0);
}

#[test]
fn an_unknown_estimate_hides_the_other_direction_when_it_buys_with_usdh() {
    assert!(compare_prices(50.0, 40.0, f64::NAN, 40.0).is_none());
    let t = compare_prices(f64::NAN, 40.0, 50.0, 40.0).unwrap();
    assert_eq!(t.buy_asset_id, 232);
}

#[test]
fn a_trade_earns_more_than_the_fees_before_them() {
    let t = compare_prices(47.5, 47.6, 47.0, 47.1).unwrap();
    let fees = 20.0 * 0.000672 * 2.0;
    assert_eq!(fees, 0.026879999999999998);
    let gross = (f(t.sell_price) - f(t.buy_price)) * f(t.buy_size);
    assert!(gross > fees);
    assert_eq!(f(t.expected_profit_usd), gross - fees);
}

#[test]
fn the_hype_balance_is_not_asked_for() {
    for hype in [0.0, -5.0, 1e9, f64::NAN] {
        let mut e = executor(store(47.5, 47.6, 47.0, 47.1), 100.0, 100.0);
        e.update_balances(b(20.0), b(0.0), b(hype));
        assert!(matches!(e.try_execute_arbitrage(), Attempt::Place { .. }));
    }
}

#[test]
fn a_new_executor_waits_for_prices() {
    let mut e = ArbitrageExecutor::new(17u8, Settings::default());
    assert_eq!(*e.client(), 17);
    assert!(matches!(e.get_current_prices(), Err(ArbitrageError::PricesNotInitialized)));
    assert!(matches!(e.check_arbitrage_opportunity(), Err(ArbitrageError::PricesNotInitialized)));
    assert!(matches!(
        e.try_execute_arbitrage(),
        Attempt::Rejected(ArbitrageError::PricesNotInitialized)
    ));
}

#[test]
fn every_price_is_needed() {
    for i in [1, 3, 5, 7] {
        for zero in [0.0, -0.0] {
            let mut prices = store(47.5, 47.6, 47.0, 47.1);
            prices[i] = b(zero);
            let e = executor(prices, 100.0, 100.0);
            assert!(matches!(e.get_current_prices(), Err(ArbitrageError::PricesNotInitialized)));
        }
    }
    let mut prices = store(47.5, 47.6, 47.0, 47.1);
    prices[0] = b(0.0);
    let (a, x, y, z) = executor(prices, 0.0, 0.0).get_current_prices().unwrap();
    assert_eq!((f(a), f(x), f(y), f(z)), (47.5, 47.6, 47.0, 47.1));
}

#[test]
fn no_spread_is_rejected() {
    let mut e = executor(store(47.0, 47.1, 47.0, 47.1), 100.0, 100.0);
    assert!(e.check_arbitrage_opportunity().unwrap().is_none());
    assert!(matches!(e.try_execute_arbitrage(), Attempt::Rejected(ArbitrageError::NoOpportunity)));
}

#[test]
fn usdc_is_needed_to_buy_with_usdc() {
    let mut e = executor(store(47.5, 47.6, 47.0, 47.1), 19.99, 100.0);
    match e.try_execute_arbitrage() {
        Attempt::Rejected(ArbitrageError::InsufficientUsdc { need, have }) => {
            assert_eq!(f(need), 20.0);
            assert_eq!(f(have), 19.99);
        }
        other => panic!("{:?}", other),
    }
    e.update_balances(b(20.0), b(0.0), b(0.0));
    assert!(matches!(e.try_execute_arbitrage(), Attempt::Place { .. }));
}

#[test]
fn usdh_is_needed_to_buy_with_usdh() {
    let mut e = executor(store(47.0, 47.1, 47.5, 47.6), 100.0, 0.0);
    match e.try_execute_arbitrage() {
        Attempt::Rejected(ArbitrageError::InsufficientUsdh { need, have }) => {
            assert_eq!(f(need), 20.0);
            assert_eq!(f(have), 0.0);
        }
        other => panic!("{:?}", other),
    }
}

#[test]
fn an_unknown_balance_is_not_below_the_trade_size() {
    let mut e = executor(store(47.0, 47.1, 47.5, 47.6), 0.0, f64::NAN);
    assert!(matches!(e.try_execute_arbitrage(), Attempt::Place { .. }));
}

#[test]
fn no_trade_is_placed_while_one_is_under_way() {
    let mut e = executor(store(47.5, 47.6, 47.0, 47.1), 100.0, 100.0);
    match e.try_execute_arbitrage() {
        Attempt::Place { trade_params, hype_amount } => {
            agrees(&trade_params, &expected(47.5, 47.6, 47.0, 47.1).unwrap());
            assert_eq!(f(hype_amount), 20.0 / 47.1);
        }
        other => panic!("{:?}", other),
    }
    assert!(matches!(e.try_execute_arbitrage(), Attempt::AlreadyRunning));
    e.update_prices(store(1.0, 2.0, 3.0, 4.0));
    assert!(matches!(e.try_execute_arbitrage(), Attempt::AlreadyRunning));
}

#[test]
fn a_settled_trade_makes_room_for_the_next() {
    let mut e = executor(store(47.5, 47.6, 47.0, 47.1), 100.0, 100.0);
    for _ in 0..3 {
        let Attempt::Place { trade_params: t, .. } = e.try_execute_arbitrage() else {
            panic!("no trade");
        };
        assert!(matches!(e.try_execute_arbitrage(), Attempt::AlreadyRunning));
        assert!(matches!(e.settle(&t, t.buy_size, t.sell_size), AfterTrade::Completed));
    }
}

#[test]
fn the_trade_size_is_a_setting() {
    assert_eq!(f(ArbitrageExecutor::new((), settings(10.0, 0.0)).trade_size()), 10.0);
    let t = find_opportunity(&settings(10.0, 0.0), b(10.5), b(11.0), b(9.0), b(10.0)).unwrap();
    assert_eq!(f(t.buy_size), 1.0);
    assert_eq!(f(t.sell_size), 0.999328);
    agrees(&t, &expected_for(10.0, 0.0, 10.5, 11.0, 9.0, 10.0).unwrap());
    let mut e = ArbitrageExecutor::new((), settings(10.0, 0.0));
    e.update_prices(store(10.5, 11.0, 9.0, 10.0));
    e.update_balances(b(9.5), b(0.0), b(0.0));
    match e.try_execute_arbitrage() {
        Attempt::Rejected(ArbitrageError::InsufficientUsdc { need, have }) => {
            assert_eq!((f(need), f(have)), (10.0, 9.5));
        }
        other => panic!("{:?}", other),
    }
    e.update_balances(b(10.0), b(0.0), b(0.0));
    match e.try_execute_arbitrage() {
        Attempt::Place { hype_amount, .. } => assert_eq!(f(hype_amount), 1.0),
        other => panic!("{:?}", other),
    }
}

#[test]
fn a_trade_has_to_earn_more_than_the_minimum() {
    let bid = 10.0 + 7.0 / 512.0;
    let tight = |minimum: f64| {
        find_opportunity(&settings(20.0, minimum), b(bid), b(11.0), b(9.0), b(10.0))
    };
    let t = tight(0.0).unwrap();
    let earned = f(t.expected_profit_usd);
    assert_eq!(earned, (bid - 10.0) * 2.0 - 20.0 * 0.000672 * 2.0);
    assert!(earned > 0.0 && earned < 1.0 / 1024.0);
    assert!(tight(1.0 / 1024.0).is_none());
    assert!(tight(earned).is_none());
    assert!(tight(earned / 2.0).is_some());
    assert!(tight(f64::NAN).is_none());
    let t = find_opportunity(&settings(20.0, 0.25), b(10.5), b(11.0), b(9.0), b(10.0)).unwrap();
    assert!((f(t.sell_price) - f(t.buy_price)) * f(t.buy_size) > 20.0 * 0.000672 * 2.0 + 0.25);
    let mut e = ArbitrageExecutor::new((), settings(20.0, 1.0));
    e.update_prices(store(10.5, 11.0, 9.0, 10.0));
    e.update_balances(b(100.0), b(100.0), b(0.0));
    assert!(matches!(e.try_execute_arbitrage(), Attempt::Rejected(ArbitrageError::NoOpportunity)));
}

#[test]
fn settings_are_read_as_numbers_from_zero_on() {
    let s = Settings::read("10.0", "0.05").unwrap();
    assert_eq!((f(s.trade_size), f(s.minimum_profit)), (10.0, 0.05));
    let s = Settings::default();
    assert_eq!((f(s.trade_size), f(s.minimum_profit)), (20.0, 0.0));
    assert!(Settings::read("0", "-0").is_ok());
    for text in ["", "x", "-1", "nan", "-inf"] {
        assert!(matches!(Settings::read(text, "0"), Err(SettingsError::TradeSize)));
        assert!(matches!(Settings::read("10", text), Err(SettingsError::MinimumProfit)));
        assert!(matches!(Settings::read(text, text), Err(SettingsError::TradeSize)));
    }
}

#[test]
fn random_settings_agree_with_the_machine() {
    let mut state = 9u64;
    let mut next = || {
        state = state.wrapping_mul(6364136223846793005).wrapping_add(1442695040888963407);
        (state >> 44) as f64 / 1048576.0
    };
    for _ in 0..2000 {
        let (size, minimum) = (1.0 + 100.0 * next(), next() / 10.0);
        let (p, q, x, y) = (47.0 + next(), 47.0 + next(), 47.0 + next(), 47.0 + next());
        let found = find_opportunity(&settings(size, minimum), b(p), b(q), b(x), b(y));
        match (found, expected_for(size, minimum, p, q, x, y)) {
            (Some(t), Some(e)) => {
                agrees(&t, &e);
                assert!(0.0 < f(t.sell_size) && f(t.sell_size) < f(t.buy_size));
            }
            (None, None) => {}
            other => panic!("{:?}", other),
        }
    }
}

#[test]
fn trades_below_a_dollar_sell_less_than_they_buy() {
    let t = find_opportunity(&settings(0.05, 0.0), b(10.5), b(11.0), b(9.0), b(10.0)).unwrap();
    agrees(&t, &expected_for(0.05, 0.0, 10.5, 11.0, 9.0, 10.0).unwrap());
    assert!(0.0 < f(t.sell_size) && f(t.sell_size) < f(t.buy_size));
    let least = find_opportunity(&settings(5e-324, 0.0), b(5.0), b(9.0), b(1.0), b(1.0)).unwrap();
    assert_eq!((f(least.buy_size), f(least.sell_size)), (5e-324, 5e-324));
}

#[test]
fn the_fee_takes_nothing_of_the_least_sizes() {
    assert_eq!(after_fee(Binary64::from_bits(744)).to_bits(), 744);
    assert_eq!(after_fee(Binary64::from_bits(745)).to_bits(), 744);
    assert_eq!(f(after_fee(b(1.0))), 0.999328);
}

#[test]
fn a_rejected_attempt_leaves_the_executor_free() {
    let mut e = executor(store(47.0, 47.1, 47.0, 47.1), 100.0, 100.0);
    assert!(matches!(e.try_execute_arbitrage(), Attempt::Rejected(_)));
    e.update_prices(store(47.5, 47.6, 47.0, 47.1));
    assert!(matches!(e.try_execute_arbitrage(), Attempt::Place { .. }));
}

#[test]
fn the_steps_of_an_attempt_agree() {
    let e = executor(store(47.5, 47.6, 47.0, 47.1), 100.0, 100.0);
    let t = e.check_arbitrage_opportunity().unwrap().unwrap();
    assert!(e.validate_sufficient_balance(&t).is_ok());
    let (kept, amount) = e.calculate_trade_params(t);
    agrees(&kept, &expected(47.5, 47.6, 47.0, 47.1).unwrap());
    assert_eq!(f(amount), 20.0 / 47.1);
    let (planned, again) = e.execute_arbitrage_internal().unwrap();
    assert_eq!(planned.buy_asset_id, 107);
    assert_eq!(f(again), f(amount));
}
