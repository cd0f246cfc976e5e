use arb_bot::binary64::Binary64;
use arb_bot::client::{
    default_balance_coins, default_coins, HyperliquidWsClient, Message, Reaction,
};
use arb_bot::executor::{ArbitrageError, ArbitrageExecutor, Attempt};
use arb_bot::feed::{
    on_frame, Channel, Frame, SpotBalance, SpotState, Step, WebData2, WsBbo, WsLevel,
};
use arb_bot::settings::Settings;
use arb_bot::settlement::AfterTrade;

fn f(x: Binary64) -> f64 {
    f64::from_bits(x.to_bits())
}

fn level(px: &str, sz: &str) -> Option<WsLevel> {
    Some(WsLevel { px: px.to_string(), sz: sz.to_string(), n: 1 })
}

fn bbo(coin: &str, bid: Option<WsLevel>, ask: Option<WsLevel>) -> WsBbo {
    WsBbo { coin: coin.to_string(), time: 0, bbo: [bid, ask] }
}

fn balance(coin: &str, total: &str, hold: &str) -> SpotBalance {
    SpotBalance {
        coin: coin.to_string(),
        token: 0,
        total: total.to_string(),
        hold: hold.to_string(),
        entry_ntl: "0.0".to_string(),
    }
}

fn web_data(balances: Vec<SpotBalance>) -> WebData2 {
    WebData2 { spot_state: SpotState { balances } }
}

fn client() -> HyperliquidWsClient<()> {
    HyperliquidWsClient::new(
        default_coins(),
        default_balance_coins(),
        "0xabc".to_string(),
        ArbitrageExecutor::new((), Settings::default()),
    )
}

fn attempt(reaction: Reaction) -> Attempt {
    match reaction {
        Reaction::Attempted(attempt) => attempt,
        other => panic!("{:?}", other),
    }
}

#[test]
fn channels_are_told_apart_by_name() {
    assert!(matches!(Channel::of("subscriptionResponse"), Channel::SubscriptionResponse));
    assert!(matches!(Channel::of("bbo"), Channel::Bbo));
    assert!(matches!(Channel::of("webData2"), Channel::WebData2));
    assert!(matches!(Channel::of("webData"), Channel::Other));
    assert!(matches!(Channel::of("BBO"), Channel::Other));
    assert!(matches!(Channel::of(""), Channel::Other));
}

#[test]
fn default_lists_name_both_books_and_three_coins() {
    assert_eq!(default_coins(), vec!["@232", "@107"]);
    assert_eq!(default_balance_coins(), vec!["USDC", "USDH", "HYPE"]);
}

#[test]
fn a_client_tells_what_it_follows() {
    let c = client();
    assert_eq!(c.coins(), &vec!["@232", "@107"]);
    assert_eq!(c.user_address(), "0xabc");
}

#[test]
fn the_executor_keeps_up_with_the_feed() {
    let mut c = client();
    c.handle_message(&Message::Bbo(bbo("@232", level("1", "1"), level("2", "1"))));
    c.handle_message(&Message::Other);
    c.handle_message(&Message::WebData2(Some(web_data(vec![balance("USDC", "30", "0")]))));
    c.handle_message(&Message::Bbo(bbo("@107", level("3", "1"), level("4", "1"))));
    c.handle_message(&Message::SubscriptionResponse);
    let p = c.arbitrage_executor().get_current_prices().unwrap();
    assert_eq!((f(p.0), f(p.1), f(p.2), f(p.3)), (1.0, 2.0, 3.0, 4.0));
}

#[test]
fn a_run_of_messages_places_one_trade_per_settlement() {
    let mut c = client();
    let funds = || {
        Message::WebData2(Some(web_data(vec![balance("USDC", "100", "0"), balance("USDH", "100", "0")])))
    };
    let messages = [
        funds(),
        Message::Bbo(bbo("@232", level("47.5", "10"), level("47.6", "11"))),
        Message::Bbo(bbo("@107", level("47.0", "12"), level("47.1", "13"))),
        Message::Bbo(bbo("@107", level("49.0", "12"), level("49.1", "13"))),
        Message::Bbo(bbo("@232", level("51.5", "10"), level("51.6", "11"))),
    ];
    let mut placed = Vec::new();
    for message in &messages {
        if let Reaction::Attempted(Attempt::Place { trade_params, .. }) = c.handle_message(message) {
            placed.push(trade_params);
        }
    }
    assert_eq!(placed.len(), 1);
    let t = placed[0];
    assert!(matches!(c.settle(&t, t.buy_size, t.sell_size), AfterTrade::Completed));
    assert!(matches!(attempt(c.handle_message(&messages[4])), Attempt::Place { .. }));
}

#[test]
fn dollars_are_moved_once_after_a_trade() {
    let mut c = client();
    let uneven = || {
        Message::WebData2(Some(web_data(vec![balance("USDC", "100", "0"), balance("USDH", "40", "0")])))
    };
    let conversion = |reaction: Reaction| match reaction {
        Reaction::Balances { conversion, .. } => conversion,
        other => panic!("{:?}", other),
    };
    assert!(conversion(c.handle_message(&uneven())).is_none());
    c.handle_message(&Message::Bbo(bbo("@232", level("47.5", "10"), level("47.6", "11"))));
    let last = Message::Bbo(bbo("@107", level("47.0", "12"), level("47.1", "13")));
    let Attempt::Place { trade_params: t, .. } = attempt(c.handle_message(&last)) else {
        panic!("no trade");
    };
    assert!(conversion(c.handle_message(&uneven())).is_none());
    c.settle(&t, t.buy_size, t.sell_size);
    let move_over = conversion(c.handle_message(&uneven())).unwrap();
    assert!(move_over.from_usdc);
    assert_eq!(f(move_over.amount), 30.0);
    assert!(conversion(c.handle_message(&uneven())).is_none());
    let by = c.arbitrage_executor().plan_conversion(&move_over).unwrap();
    assert_eq!((by.buy_asset_id, by.sell_asset_id), (107, 232));
    assert_eq!((f(by.buy_price), f(by.sell_price)), (47.1, 47.5));
    assert_eq!(f(by.buy_size), 30.0 / 47.1);
    assert_eq!(f(by.sell_size), 30.0 / 47.1 * (1.0 - 0.000672));
}

#[test]
fn a_conversion_needs_prices() {
    let c = client();
    let conversion = arb_bot::settlement::Conversion {
        from_usdc: false,
        amount: Binary64::from_bits(1.0f64.to_bits()),
    };
    assert!(matches!(
        c.arbitrage_executor().plan_conversion(&conversion),
        Err(ArbitrageError::PricesNotInitialized)
    ));
}

/// Feeds frames, of which a text spells the bid of a book, and gives the texts that were
/// handled and what they led to.
fn run_of(frames: &[Frame]) -> (Vec<String>, Vec<String>) {
    let mut c = client();
    let (mut texts, mut attempts) = (Vec::new(), Vec::new());
    for frame in frames {
        match on_frame(frame) {
            Step::Handle(text) => {
                let message = Message::Bbo(bbo("@232", level(&text, "1"), level("48", "1")));
                attempts.push(format!("{:?}", c.handle_message(&message)));
                texts.push(text);
            }
            Step::Stop => break,
            Step::Skip => {}
        }
    }
    (texts, attempts)
}

#[test]
fn frames_that_are_passed_over_change_nothing() {
    let text = |bid: &str| Frame::Text(bid.to_string());
    let plain = [text("47"), text("46.5"), Frame::Close, text("45")];
    let (texts, attempts) = run_of(&plain);
    assert_eq!(texts, vec!["47", "46.5"]);
    for at in 0..=plain.len() {
        let mut longer = vec![text("47"), text("46.5"), Frame::Close, text("45")];
        longer.insert(at, Frame::Other);
        longer.insert(at, Frame::Other);
        assert_eq!(run_of(&longer), (texts.clone(), attempts.clone()));
    }
}

#[test]
fn frames_are_handled_stopped_at_or_skipped() {
    assert!(matches!(on_frame(&Frame::Text("a".to_string())), Step::Handle(t) if t == "a"));
    assert!(matches!(on_frame(&Frame::Close), Step::Stop));
    assert!(matches!(on_frame(&Frame::Other), Step::Skip));
}

#[test]
fn both_books_and_a_balance_lead_to_a_trade() {
    let mut c = client();
    let usdc = Message::WebData2(Some(web_data(vec![balance("USDC", "30.5", "0.5")])));
    match c.handle_message(&usdc) {
        Reaction::Balances { balances: b, conversion } => {
            assert_eq!((f(b.usdc), f(b.usdh), f(b.hype)), (30.0, 0.0, 0.0));
            assert!(conversion.is_none());
        }
        other => panic!("{:?}", other),
    }
    let usdh_book = Message::Bbo(bbo("@232", level("47.5", "10"), level("47.6", "11")));
    assert!(matches!(
        attempt(c.handle_message(&usdh_book)),
        Attempt::Rejected(ArbitrageError::PricesNotInitialized)
    ));
    let usdc_book = Message::Bbo(bbo("@107", level("47.0", "12"), level("47.1", "13")));
    match attempt(c.handle_message(&usdc_book)) {
        Attempt::Place { trade_params, .. } => {
            assert_eq!(trade_params.buy_asset_id, 107);
            assert_eq!(f(trade_params.buy_price), 47.1);
            assert_eq!(f(trade_params.sell_price), 47.5);
        }
        other => panic!("{:?}", other),
    }
    assert!(matches!(attempt(c.handle_message(&usdc_book)), Attempt::AlreadyRunning));
}

#[test]
fn without_balances_nothing_is_placed() {
    let mut c = client();
    c.handle_message(&Message::Bbo(bbo("@232", level("47.5", "10"), level("47.6", "11"))));
    let last = Message::Bbo(bbo("@107", level("47.0", "12"), level("47.1", "13")));
    assert!(matches!(
        attempt(c.handle_message(&last)),
        Attempt::Rejected(ArbitrageError::InsufficientUsdc { .. })
    ));
}

#[test]
fn books_may_come_in_either_order() {
    let first = || Message::Bbo(bbo("@232", level("47.5", "10"), level("47.6", "11")));
    let second = || Message::Bbo(bbo("@107", level("47.0", "12"), level("47.1", "13")));
    let mut one = client();
    one.handle_message(&first());
    one.handle_message(&second());
    let mut two = client();
    two.handle_message(&second());
    two.handle_message(&first());
    let a = one.arbitrage_executor().get_current_prices().unwrap();
    let b = two.arbitrage_executor().get_current_prices().unwrap();
    assert_eq!((f(a.0), f(a.1), f(a.2), f(a.3)), (47.5, 47.6, 47.0, 47.1));
    assert_eq!((f(b.0), f(b.1), f(b.2), f(b.3)), (47.5, 47.6, 47.0, 47.1));
}

#[test]
fn the_later_update_of_a_book_counts_and_the_other_book_stays() {
    let mut c = client();
    c.handle_message(&Message::Bbo(bbo("@232", level("1", "1"), level("2", "1"))));
    c.handle_message(&Message::Bbo(bbo("@107", level("3", "1"), level("4", "1"))));
    c.handle_message(&Message::Bbo(bbo("@232", level("5", "1"), level("6", "1"))));
    let p = c.arbitrage_executor().get_current_prices().unwrap();
    assert_eq!((f(p.0), f(p.1), f(p.2), f(p.3)), (5.0, 6.0, 3.0, 4.0));
}

#[test]
fn any_other_coin_counts_as_the_usdc_book() {
    let mut c = client();
    c.handle_message(&Message::Bbo(bbo("@232", level("1", "1"), level("2", "1"))));
    c.handle_message(&Message::Bbo(bbo("HYPE", level("3", "1"), level("4", "1"))));
    let p = c.arbitrage_executor().get_current_prices().unwrap();
    assert_eq!((f(p.0), f(p.1), f(p.2), f(p.3)), (1.0, 2.0, 3.0, 4.0));
}

#[test]
fn a_one_sided_book_changes_nothing() {
    let mut c = client();
    c.handle_message(&Message::Bbo(bbo("@232", level("1", "1"), level("2", "1"))));
    c.handle_message(&Message::Bbo(bbo("@107", level("3", "1"), level("4", "1"))));
    c.handle_message(&Message::Bbo(bbo("@232", level("9", "9"), None)));
    c.handle_message(&Message::Bbo(bbo("@107", None, level("x", "y"))));
    let p = c.arbitrage_executor().get_current_prices().unwrap();
    assert_eq!((f(p.0), f(p.1), f(p.2), f(p.3)), (1.0, 2.0, 3.0, 4.0));
}

#[test]
fn unreadable_numbers_are_found_out() {
    assert!(bbo("@232", level("1.5", "2e1"), level("inf", ".5")).is_readable());
    assert!(!bbo("@232", level("x", "1"), level("1", "1")).is_readable());
    assert!(!bbo("@232", level("1", ""), level("1", "1")).is_readable());
    assert!(!bbo("@232", level("1", "1"), level("1", "1 ")).is_readable());
    assert!(bbo("@232", level("x", "1"), None).is_readable());
    assert!(bbo("@232", None, None).is_readable());
}

#[test]
fn the_last_entry_of_a_followed_coin_counts() {
    let mut c = client();
    let b = c.handle_clearing_house_state(&web_data(vec![
        balance("USDC", "10", "1"),
        balance("PURR", "99", "0"),
        balance("USDH", "0.3", "0.1"),
        balance("HYPE", "abc", "2.5"),
        balance("USDC", "7", "oops"),
    ]));
    assert_eq!(f(b.usdc), 7.0);
    assert_eq!(f(b.usdh), 0.3 - 0.1);
    assert_eq!(f(b.hype), -2.5);
}

#[test]
fn coins_that_are_not_followed_count_as_zero() {
    let mut c = HyperliquidWsClient::new(
        default_coins(),
        vec!["USDH".to_string()],
        "0xabc".to_string(),
        ArbitrageExecutor::new((), Settings::default()),
    );
    let b = c.handle_clearing_house_state(&web_data(vec![
        balance("USDC", "10", "1"),
        balance("USDH", "5", "1"),
    ]));
    assert_eq!((f(b.usdc), f(b.usdh), f(b.hype)), (0.0, 4.0, 0.0));
}

#[test]
fn balances_are_replaced_as_a_whole() {
    let mut c = client();
    c.handle_clearing_house_state(&web_data(vec![balance("USDC", "10", "1")]));
    let b = c.handle_clearing_house_state(&web_data(vec![balance("USDH", "3", "1")]));
    assert_eq!((f(b.usdc), f(b.usdh), f(b.hype)), (0.0, 2.0, 0.0));
}

#[test]
fn other_messages_are_passed_over() {
    let mut c = client();
    assert!(matches!(c.handle_message(&Message::SubscriptionResponse), Reaction::Confirmed));
    assert!(matches!(c.handle_message(&Message::Other), Reaction::Ignored));
    assert!(matches!(c.handle_message(&Message::WebData2(None)), Reaction::Ignored));
}

#[test]
fn subscriptions_name_each_book_and_the_account() {
    assert_eq!(
        client().subscriptions(),
        vec![
            "{\"method\":\"subscribe\",\"subscription\":{\"coin\":\"@232\",\"type\":\"bbo\"}}",
            "{\"method\":\"subscribe\",\"subscription\":{\"coin\":\"@107\",\"type\":\"bbo\"}}",
            "{\"method\":\"subscribe\",\"subscription\":{\"type\":\"webData2\",\"user\":\"0xabc\"}}",
        ]
    );
}
