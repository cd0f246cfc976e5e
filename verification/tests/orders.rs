use arb_bot::binary64::Binary64;
use arb_bot::executor::ArbitrageExecutor;
use arb_bot::orders::{
    as_ordered, fills, review_response, spot_price_decimals, OrderResponse, OrderStatus, OrderTexts, OrderType, Report,
};
use arb_bot::settings::Settings;
use arb_bot::strategy::{find_opportunity, TradeParams};
use arb_bot::subscription::{subscribe_bbo, subscribe_web_data};

fn b(x: f64) -> Binary64 {
    Binary64::from_bits(x.to_bits())
}

fn trade() -> TradeParams {
    find_opportunity(&Settings::default(), b(47.5), b(47.6), b(47.0), b(47.1)).unwrap()
}

fn texts() -> OrderTexts {
    OrderTexts {
        buy_size: "0.42".to_string(),
        sell_size: "0.41".to_string(),
        buy_price: "47.1".to_string(),
        sell_price: "47.5".to_string(),
    }
}

#[test]
fn a_trade_is_placed_as_two_orders() {
    let e = ArbitrageExecutor::new((), Settings::default());
    let bulk = e.create_bulk_order(&trade(), &texts());
    assert_eq!(bulk.grouping, "na");
    assert_eq!(bulk.orders.len(), 2);
    let buy = &bulk.orders[0];
    assert_eq!((buy.asset, buy.is_buy, buy.reduce_only), (10107, true, false));
    assert_eq!((buy.limit_px.as_str(), buy.sz.as_str()), ("47.1", "0.42"));
    assert!(buy.cloid.is_none());
    let sell = &bulk.orders[1];
    assert_eq!((sell.asset, sell.is_buy, sell.reduce_only), (10232, false, false));
    assert_eq!((sell.limit_px.as_str(), sell.sz.as_str()), ("47.5", "0.41"));
    assert!(sell.cloid.is_none());
    for order in &bulk.orders {
        let OrderType::Limit(limit) = &order.order_type;
        assert_eq!(limit.tif, "Ioc");
    }
}

#[test]
fn figures_carry_the_decimals_of_sizes_and_prices() {
    let e = ArbitrageExecutor::new((), Settings::default());
    let t = trade();
    let figures = e.order_figures(&t, 8);
    assert_eq!(figures.buy_size.value.to_bits(), t.buy_size.to_bits());
    assert_eq!(figures.sell_size.value.to_bits(), t.sell_size.to_bits());
    assert_eq!(figures.buy_price.value.to_bits(), t.buy_price.to_bits());
    assert_eq!(figures.sell_price.value.to_bits(), t.sell_price.to_bits());
    assert_eq!((figures.buy_size.decimals, figures.sell_size.decimals), (2, 2));
    assert_eq!((figures.buy_price.decimals, figures.sell_price.decimals), (6, 6));
    assert_eq!(spot_price_decimals(8, 2), 6);
    assert_eq!(spot_price_decimals(2, 8), -6);
}

#[test]
fn every_status_is_reported_in_order() {
    let reports = review_response(&OrderResponse::Order(vec![
        OrderStatus::Filled { size: "1".to_string(), text: "a".to_string() },
        OrderStatus::Error("b".to_string()),
        OrderStatus::Other("c".to_string()),
    ]));
    assert_eq!(reports.len(), 3);
    assert!(matches!(&reports[0], Report::Filled(t) if t == "a"));
    assert!(matches!(&reports[1], Report::Failed(1, t) if t == "b"));
    assert!(matches!(&reports[2], Report::InvalidStatus(t) if t == "c"));
    assert!(review_response(&OrderResponse::Order(vec![])).is_empty());
}

#[test]
fn another_kind_of_answer_is_reported_as_unknown() {
    let reports = review_response(&OrderResponse::Other("x".to_string()));
    assert_eq!(reports.len(), 1);
    assert!(matches!(&reports[0], Report::Unknown(t) if t == "x"));
}

#[test]
fn requests_escape_what_json_escapes() {
    assert_eq!(
        subscribe_bbo("a\"b\\c\n\t\r\u{8}\u{c}\u{1}\u{1f}/\u{7f}\u{e9}"),
        "{\"method\":\"subscribe\",\"subscription\":{\"coin\":\"a\\\"b\\\\c\\n\\t\\r\\b\\f\\u0001\\u001f/\u{7f}\u{e9}\",\"type\":\"bbo\"}}"
    );
    assert_eq!(
        subscribe_web_data("0x\u{1f600}"),
        "{\"method\":\"subscribe\",\"subscription\":{\"type\":\"webData2\",\"user\":\"0x\u{1f600}\"}}"
    );
}

#[test]
fn sizes_are_read_back_from_the_orders() {
    let t = trade();
    let ordered = as_ordered(&t, &texts());
    assert_eq!(ordered.buy_size.to_bits(), 0.42f64.to_bits());
    assert_eq!(ordered.sell_size.to_bits(), 0.41f64.to_bits());
    assert_eq!(ordered.buy_price.to_bits(), t.buy_price.to_bits());
    assert_eq!(ordered.buy_asset_id, t.buy_asset_id);
    let unread = OrderTexts { buy_size: "?".to_string(), ..texts() };
    assert_eq!(as_ordered(&t, &unread).buy_size.to_bits(), t.buy_size.to_bits());
}

#[test]
fn fills_are_read_from_the_answer() {
    let filled = |size: &str| OrderStatus::Filled { size: size.to_string(), text: String::new() };
    let amounts = |response: OrderResponse| {
        let (bought, sold) = fills(&response);
        (f64::from_bits(bought.to_bits()), f64::from_bits(sold.to_bits()))
    };
    assert_eq!(amounts(OrderResponse::Order(vec![filled("0.42"), filled("0.21")])), (0.42, 0.21));
    assert_eq!(
        amounts(OrderResponse::Order(vec![OrderStatus::Error("no".to_string()), filled("0.41")])),
        (0.0, 0.41)
    );
    assert_eq!(amounts(OrderResponse::Order(vec![filled("0.42")])), (0.42, 0.0));
    assert_eq!(amounts(OrderResponse::Order(vec![filled("?"), filled("1")])), (0.0, 1.0));
    assert_eq!(amounts(OrderResponse::Order(vec![])), (0.0, 0.0));
    assert_eq!(amounts(OrderResponse::Other("x".to_string())), (0.0, 0.0));
}
