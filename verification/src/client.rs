//! The feed client: it takes in the messages of the feed and drives the executor.

use vstd::prelude::*;

use crate::binary64::Binary64;
use crate::executor::{attempt_on, conversion_due, ArbitrageExecutor, Attempt, BalanceState};
use crate::feed::{balance_of, store_after, WebData2, WsBbo};
use crate::settings::Settings;
use crate::settlement::{after_trade, AfterTrade, Conversion};
use crate::strategy::{number, TradeParams, ZERO};
use crate::subscription::{bbo_request, subscribe_bbo, subscribe_web_data, web_data_request};
use crate::text::{contains_text, same_text, texts};

verus! {

/// A message of the feed.
#[derive(Debug)]
pub enum Message {
    /// A subscription is confirmed.
    SubscriptionResponse,
    /// A best bid and offer.
    Bbo(WsBbo),
    /// The state of the account, unless it could not be read.
    WebData2(Option<WebData2>),
    /// Anything else.
    Other,
}

/// What a message leads to.
#[derive(Debug, Clone, Copy)]
pub enum Reaction {
    /// A subscription is confirmed.
    Confirmed,
    /// A trade was attempted.
    Attempted(Attempt),
    /// The balances were replaced, and dollars may have to be moved.
    Balances { balances: BalanceState, conversion: Option<Conversion> },
    /// Nothing.
    Ignored,
}

/// The balances of an account, of the coins to follow.
pub open spec fn balances_in(followed: Seq<Seq<char>>, web_data: WebData2) -> BalanceState {
    let balances = web_data.spot_state.balances@;
    BalanceState {
        usdc: balance_of(followed, balances, "USDC"@),
        usdh: balance_of(followed, balances, "USDH"@),
        hype: balance_of(followed, balances, "HYPE"@),
    }
}

/// The books to follow: HYPE/USDH and HYPE/USDC.
pub fn default_coins() -> (r: Vec<String>)
    ensures
        texts(r@) == seq!["@232"@, "@107"@],
{
    let mut r: Vec<String> = Vec::new();
    r.push("@232".to_owned());
    r.push("@107".to_owned());
    assert(texts(r@) == seq!["@232"@, "@107"@]);
    r
}

/// The coins whose balances to follow.
pub fn default_balance_coins() -> (r: Vec<String>)
    ensures
        texts(r@) == seq!["USDC"@, "USDH"@, "HYPE"@],
{
    let mut r: Vec<String> = Vec::new();
    r.push("USDC".to_owned());
    r.push("USDH".to_owned());
    r.push("HYPE".to_owned());
    assert(texts(r@) == seq!["USDC"@, "USDH"@, "HYPE"@]);
    r
}

/// The requests to send when the feed is opened: one for the best bid and offer of each
/// book, in their order, and then one for the state of the account.
pub open spec fn requests(coins: Seq<Seq<char>>, user: Seq<char>) -> Seq<Seq<char>> {
    Seq::new(coins.len(), |i: int| bbo_request(coins[i])).push(web_data_request(user))
}

/// What a client knows and does at one moment.
pub struct ClientState {
    /// The settings of the executor.
    pub settings: Settings,
    /// The prices and sizes as they came in.
    pub prices: Seq<Binary64>,
    /// The prices and sizes that the executor has.
    pub executor_prices: Seq<Binary64>,
    /// The balances that the executor has.
    pub balances: BalanceState,
    /// Whether a trade is under way.
    pub executing: bool,
    /// Whether a conversion is due when balances come in.
    pub due: bool,
}

/// What a message leads to.
pub open spec fn reaction_to(
    state: ClientState,
    followed: Seq<Seq<char>>,
    message: Message,
) -> Reaction {
    match message {
        Message::SubscriptionResponse => Reaction::Confirmed,
        Message::Bbo(bbo) => Reaction::Attempted(
            attempt_on(
                state.settings,
                state.executing,
                store_after(state.prices, bbo),
                state.balances,
            ),
        ),
        Message::WebData2(Some(web_data)) => {
            let balances = balances_in(followed, web_data);
            Reaction::Balances {
                balances,
                conversion: conversion_due(state.due, state.executing, balances),
            }
        },
        Message::WebData2(None) => Reaction::Ignored,
        Message::Other => Reaction::Ignored,
    }
}

/// The state after a message.
pub open spec fn state_after(
    state: ClientState,
    followed: Seq<Seq<char>>,
    message: Message,
) -> ClientState {
    match message {
        Message::Bbo(bbo) => {
            let prices = store_after(state.prices, bbo);
            ClientState {
                prices,
                executor_prices: prices,
                executing: !(attempt_on(
                    state.settings,
                    state.executing,
                    prices,
                    state.balances,
                ) is Rejected),
                ..state
            }
        },
        Message::WebData2(Some(web_data)) => ClientState {
            balances: balances_in(followed, web_data),
            due: state.due && state.executing,
            ..state
        },
        _ => state,
    }
}

/// The state after the trade that was placed is settled.
pub open spec fn state_settled(state: ClientState) -> ClientState {
    ClientState { executing: false, due: true, ..state }
}

/// The feed client. `C` is the client through which orders are sent.
pub struct HyperliquidWsClient<C> {
    coins: Vec<String>,
    balance_coins: Vec<String>,
    user_address: String,
    store: [Binary64; 8],
    arbitrage_executor: ArbitrageExecutor<C>,
}

impl<C> HyperliquidWsClient<C> {
    /// The books to follow.
    pub closed spec fn followed_coins(&self) -> Seq<Seq<char>> {
        texts(self.coins@)
    }

    /// The coins whose balances to follow.
    pub closed spec fn followed_balances(&self) -> Seq<Seq<char>> {
        texts(self.balance_coins@)
    }

    /// The account to follow.
    pub closed spec fn account(&self) -> Seq<char> {
        self.user_address@
    }

    /// The prices and sizes as they came in.
    pub closed spec fn prices(&self) -> Seq<Binary64> {
        self.store@
    }

    /// The executor.
    pub closed spec fn executor(&self) -> ArbitrageExecutor<C> {
        self.arbitrage_executor
    }

    /// What the client knows and does.
    pub open spec fn state(&self) -> ClientState {
        ClientState {
            settings: self.executor().settings(),
            prices: self.prices(),
            executor_prices: self.executor().latest_prices(),
            balances: self.executor().latest_balances(),
            executing: self.executor().executing(),
            due: self.executor().due(),
        }
    }

    /// Whether the two clients follow the same things.
    pub open spec fn follows_same(&self, other: &HyperliquidWsClient<C>) -> bool {
        &&& self.followed_coins() == other.followed_coins()
        &&& self.followed_balances() == other.followed_balances()
        &&& self.account() == other.account()
    }

    /// There are two prices and two sizes of each book.
    pub proof fn lemma_eight_prices(&self)
        ensures
            self.state().prices.len() == 8,
            self.state().executor_prices.len() == 8,
    {
        self.executor().lemma_eight_prices();
    }

    /// A client that has seen no prices yet.
    pub fn new(
        coins: Vec<String>,
        balance_coins: Vec<String>,
        user_address: String,
        arbitrage_executor: ArbitrageExecutor<C>,
    ) -> (r: HyperliquidWsClient<C>)
        ensures
            r.followed_coins() == texts(coins@),
            r.followed_balances() == texts(balance_coins@),
            r.account() == user_address@,
            r.prices() == Seq::new(8, |i: int| number(ZERO)),
            r.executor() == arbitrage_executor,
    {
        let zero = Binary64::from_bits(ZERO);
        let r = HyperliquidWsClient {
            coins,
            balance_coins,
            user_address,
            store: [zero, zero, zero, zero, zero, zero, zero, zero],
            arbitrage_executor,
        };
        assert(r.store@ == Seq::new(8, |i: int| number(ZERO)));
        r
    }

    /// The books to follow.
    pub fn coins(&self) -> (r: &Vec<String>)
        ensures
            texts(r@) == self.followed_coins(),
    {
        &self.coins
    }

    /// The account to follow.
    pub fn user_address(&self) -> (r: &str)
        ensures
            r@ == self.account(),
    {
        self.user_address.as_str()
    }

    /// The requests to send when the feed is opened: one for the best bid and offer
    /// of each book, in their order, and then one for the state of the account.
    pub fn subscriptions(&self) -> (r: Vec<String>)
        ensures
            texts(r@) == requests(self.followed_coins(), self.account()),
    {
        let mut r: Vec<String> = Vec::new();
        let mut i: usize = 0;
        while i < self.coins.len()
            invariant
                i <= self.coins@.len(),
                r@.len() == i,
                forall|j: int| 0 <= j < i ==> (#[trigger] r@[j])@ == bbo_request(self.coins@[j]@),
            decreases self.coins@.len() - i,
        {
            r.push(subscribe_bbo(self.coins[i].as_str()));
            i = i + 1;
        }
        r.push(subscribe_web_data(self.user_address.as_str()));
        assert(texts(r@) == requests(self.followed_coins(), self.account()));
        r
    }

    /// Takes in a best bid and offer.
    pub fn handle_bbo_update(&mut self, bbo: &WsBbo)
        requires
            bbo.readable(),
        ensures
            final(self).prices() == store_after(old(self).prices(), *bbo),
            final(self).executor() == old(self).executor(),
            final(self).follows_same(old(self)),
    {
        let offset: usize = if same_text(bbo.coin.as_str(), "@232") {
            0
        } else {
            4
        };
        if let (Some(best_bid), Some(best_ask)) = (&bbo.bbo[0], &bbo.bbo[1]) {
            let bid_size = Binary64::parse(best_bid.sz.as_str()).unwrap();
            let bid_price = Binary64::parse(best_bid.px.as_str()).unwrap();
            let ask_size = Binary64::parse(best_ask.sz.as_str()).unwrap();
            let ask_price = Binary64::parse(best_ask.px.as_str()).unwrap();
            self.store[offset + 0] = bid_size;
            self.store[offset + 1] = bid_price;
            self.store[offset + 2] = ask_size;
            self.store[offset + 3] = ask_price;
        }
        assert(self.store@ == store_after(old(self).store@, *bbo));
    }

    /// Takes in the state of the account. Of each coin the last entry counts.
    pub fn handle_clearing_house_state(&mut self, web_data: &WebData2) -> (r: BalanceState)
        ensures
            r == balances_in(old(self).followed_balances(), *web_data),
            final(self).executor().latest_balances() == r,
            final(self).executor().latest_prices() == old(self).executor().latest_prices(),
            final(self).executor().executing() == old(self).executor().executing(),
            final(self).executor().exchange() == old(self).executor().exchange(),
            final(self).executor().settings() == old(self).executor().settings(),
            final(self).executor().due() == old(self).executor().due(),
            final(self).prices() == old(self).prices(),
            final(self).follows_same(old(self)),
    {
        let balances = &web_data.spot_state.balances;
        let ghost followed = texts(self.balance_coins@);
        let mut usdc = Binary64::from_bits(ZERO);
        let mut usdh = Binary64::from_bits(ZERO);
        let mut hype = Binary64::from_bits(ZERO);
        let mut i: usize = 0;
        while i < balances.len()
            invariant
                i <= balances@.len(),
                followed == texts(self.balance_coins@),
                *self == *old(self),
                usdc == balance_of(followed, balances@.take(i as int), "USDC"@),
                usdh == balance_of(followed, balances@.take(i as int), "USDH"@),
                hype == balance_of(followed, balances@.take(i as int), "HYPE"@),
            decreases balances@.len() - i,
        {
            let balance = &balances[i];
            proof {
                let longer = balances@.take(i + 1);
                assert(longer.drop_last() == balances@.take(i as int));
                assert(longer.last() == *balance);
                reveal_strlit("USDC");
                reveal_strlit("USDH");
                reveal_strlit("HYPE");
                assert("USDC"@[3] != "USDH"@[3]);
                assert("USDC"@[0] != "HYPE"@[0]);
                assert("USDH"@[0] != "HYPE"@[0]);
            }
            if contains_text(&self.balance_coins, balance.coin.as_str()) {
                let available = balance.free();
                if same_text(balance.coin.as_str(), "USDC") {
                    usdc = available;
                } else if same_text(balance.coin.as_str(), "USDH") {
                    usdh = available;
                } else if same_text(balance.coin.as_str(), "HYPE") {
                    hype = available;
                }
            }
            i = i + 1;
        }
        assert(balances@.take(balances@.len() as int) == balances@);
        self.arbitrage_executor.update_balances(usdc, usdh, hype);
        BalanceState { usdc, usdh, hype }
    }

    /// Takes in a message. A best bid and offer goes to the executor, which then
    /// attempts a trade; the state of the account replaces the balances, and after a
    /// settled trade decides whether dollars are to be moved.
    pub fn handle_message(&mut self, message: &Message) -> (r: Reaction)
        requires
            message matches Message::Bbo(bbo) ==> bbo.readable(),
        ensures
            final(self).follows_same(old(self)),
            final(self).executor().exchange() == old(self).executor().exchange(),
            final(self).state() == state_after(
                old(self).state(),
                old(self).followed_balances(),
                *message,
            ),
            r == reaction_to(old(self).state(), old(self).followed_balances(), *message),
    {
        match message {
            Message::SubscriptionResponse => Reaction::Confirmed,
            Message::Bbo(bbo) => {
                self.handle_bbo_update(bbo);
                self.arbitrage_executor.update_prices(self.store);
                Reaction::Attempted(self.arbitrage_executor.try_execute_arbitrage())
            },
            Message::WebData2(Some(web_data)) => {
                let balances = self.handle_clearing_house_state(web_data);
                let conversion = self.arbitrage_executor.rebalance();
                Reaction::Balances { balances, conversion }
            },
            Message::WebData2(None) => Reaction::Ignored,
            Message::Other => Reaction::Ignored,
        }
    }

    /// Settles the trade that was placed and decides what is left to do of it.
    pub fn settle(&mut self, trade_params: &TradeParams, bought: Binary64, sold: Binary64) -> (r:
        AfterTrade)
        ensures
            r == after_trade(*trade_params, bought, sold),
            final(self).state() == state_settled(old(self).state()),
            final(self).executor().exchange() == old(self).executor().exchange(),
            final(self).follows_same(old(self)),
    {
        self.arbitrage_executor.settle(trade_params, bought, sold)
    }

    /// The executor that the messages drive.
    pub fn arbitrage_executor(&self) -> (r: &ArbitrageExecutor<C>)
        ensures
            *r == self.executor(),
    {
        &self.arbitrage_executor
    }
}

} // verus!
