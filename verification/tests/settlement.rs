use arb_bot::binary64::Binary64;
use arb_bot::executor::BalanceState;
use arb_bot::settings::Settings;
use arb_bot::settlement::{
    find_rebalancing, find_worst_price, follow_up, AfterOffload, AfterTrade, Conversion, Offload,
};
use arb_bot::strategy::{find_opportunity, TradeParams};

fn b(x: f64) -> Binary64 {
    Binary64::from_bits(x.to_bits())
}

fn f(x: Binary64) -> f64 {
    f64::from_bits(x.to_bits())
}

fn trade() -> TradeParams {
    let mut t = find_opportunity(&Settings::default(), b(47.5), b(47.6), b(47.0), b(47.1)).unwrap();
    t.buy_size = b(0.42);
    t.sell_size = b(0.42);
    t
}

fn offload(bought: f64, sold: f64) -> Offload {
    match follow_up(&trade(), b(bought), b(sold)) {
        AfterTrade::Offload(offload) => offload,
        other => panic!("{:?}", other),
    }
}

fn rebalancing(usdc: f64, usdh: f64) -> Option<Conversion> {
    find_rebalancing(&BalanceState { usdc: b(usdc), usdh: b(usdh), hype: b(7.0) })
}

#[test]
fn full_fills_complete_the_trade() {
    assert!(matches!(follow_up(&trade(), b(0.42), b(0.42)), AfterTrade::Completed));
    let exact = find_opportunity(&Settings::default(), b(47.5), b(47.6), b(47.0), b(47.1)).unwrap();
    assert!(matches!(follow_up(&exact, exact.buy_size, exact.sell_size), AfterTrade::Completed));
}

#[test]
fn what_was_not_sold_is_sold_off() {
    let o = offload(0.42, 0.2);
    assert_eq!((o.asset_id, o.is_buy), (232, false));
    assert_eq!(f(o.size), 0.42 * (1.0 - 0.000672) - 0.2);
    assert!(f(o.limit_price) >= 47.5 * 0.98 - 1e-13 && f(o.limit_price) <= 47.5 * 0.98 + 1e-13);
    let o = offload(0.42, 0.0);
    assert_eq!(f(o.size), 0.42 * (1.0 - 0.000672));
}

#[test]
fn what_was_not_bought_is_bought_back() {
    let o = offload(0.0, 0.42);
    assert_eq!((o.asset_id, o.is_buy), (107, true));
    assert_eq!(f(o.size), 0.42);
    assert!(f(o.limit_price) >= 47.1 * 1.02 - 1e-13 && f(o.limit_price) <= 47.1 * 1.02 + 1e-13);
    let o = offload(0.1, 0.42);
    assert_eq!(f(o.size), 0.42 - 0.1 * (1.0 - 0.000672));
}

#[test]
fn even_fills_leave_nothing_to_offload() {
    assert!(matches!(follow_up(&trade(), b(0.0), b(0.0)), AfterTrade::Even));
    let sold = 0.2 * (1.0 - 0.000672);
    assert!(matches!(follow_up(&trade(), b(0.2), b(sold)), AfterTrade::Even));
}

#[test]
fn an_offload_is_one_immediate_order() {
    let o = offload(0.42, 0.2);
    let (size, price) = o.figures(8);
    assert_eq!((size.value.to_bits(), size.decimals), (o.size.to_bits(), 2));
    assert_eq!((price.value.to_bits(), price.decimals), (o.limit_price.to_bits(), 6));
    let bulk = o.order("0.21", "46.55");
    assert_eq!((bulk.orders.len(), bulk.grouping.as_str()), (1, "na"));
    assert_eq!((bulk.orders[0].asset, bulk.orders[0].is_buy), (10232, false));
    assert_eq!((bulk.orders[0].sz.as_str(), bulk.orders[0].limit_px.as_str()), ("0.21", "46.55"));
}

#[test]
fn what_an_offload_leaves_is_offloaded_in_turn() {
    let o = offload(0.0, 0.42);
    let rest = o.rest(b(0.3)).unwrap();
    assert_eq!(f(rest.size), 0.42 - 0.3);
    assert_eq!((rest.asset_id, rest.is_buy), (o.asset_id, o.is_buy));
    assert_eq!(rest.limit_price.to_bits(), o.limit_price.to_bits());
    assert!(o.rest(b(0.42)).is_none());
    assert!(o.rest(b(0.5)).is_none());
    assert!(o.rest(b(f64::NAN)).is_none());
    assert_eq!(f(o.rest(b(0.0)).unwrap().size), 0.42);
    assert!(matches!(o.proceed(b(0.42)), AfterOffload::Done));
    assert!(matches!(o.proceed(b(0.3)), AfterOffload::Again(x) if f(x.size) == 0.42 - 0.3));
    assert!(matches!(o.proceed(b(0.0)), AfterOffload::Stuck(x) if f(x.size) == 0.42));
}

#[test]
fn worst_prices_are_two_percent_off() {
    assert_eq!(f(find_worst_price(b(50.0), true)), 51.0);
    assert_eq!(f(find_worst_price(b(50.0), false)), 49.0);
    assert_eq!(f(find_worst_price(b(100.0), false)), 98.0);
    // Whole grains: 2% of 49 grains is less than one.
    let g = |bits: u64, is_buy: bool| find_worst_price(Binary64::from_bits(bits), is_buy).to_bits();
    assert_eq!((g(0, true), g(0, false)), (0, 0));
    assert_eq!((g(49, true), g(49, false)), (49, 49));
    assert_eq!((g(50, true), g(50, false)), (51, 49));
    assert_eq!((g(149, true), g(149, false)), (151, 147));
    assert_eq!(f(find_worst_price(b(f64::MAX), true)), f64::MAX);
    assert_eq!(f(find_worst_price(b(f64::INFINITY), true)), f64::INFINITY);
    assert_eq!(f(find_worst_price(b(-5.0), false)), -5.0);
    for x in [0.1, 0.3, 47.1, 47.123, 1e-300, 12345.678] {
        assert!((f(find_worst_price(b(x), true)) - x * 1.02).abs() <= x * 1e-15);
        assert!((f(find_worst_price(b(x), false)) - x * 0.98).abs() <= x * 1e-15);
    }
}

#[test]
fn half_of_the_excess_is_moved() {
    let c = rebalancing(100.0, 40.0).unwrap();
    assert_eq!((c.from_usdc, f(c.amount)), (true, 30.0));
    let c = rebalancing(10.25, 30.5).unwrap();
    assert_eq!((c.from_usdc, f(c.amount)), (false, 10.125));
    let c = rebalancing(-10.0, 20.0).unwrap();
    assert_eq!((c.from_usdc, f(c.amount)), (false, 15.0));
    let c = rebalancing(f64::MAX, -f64::MAX).unwrap();
    assert_eq!((c.from_usdc, f(c.amount)), (true, f64::MAX));
    let c = rebalancing(0.3, 0.1).unwrap();
    assert_eq!(f(c.amount), (0.3 - 0.1) / 2.0);
    let c = rebalancing(1e300, 1.0).unwrap();
    assert_eq!(f(c.amount), 5e299);
}

#[test]
fn even_or_unknown_balances_are_left_alone() {
    assert!(rebalancing(30.0, 30.0).is_none());
    assert!(rebalancing(0.0, -0.0).is_none());
    assert!(rebalancing(5e-324, 0.0).is_none());
    assert!(rebalancing(f64::NAN, 1.0).is_none());
    assert!(rebalancing(1.0, f64::INFINITY).is_none());
}
