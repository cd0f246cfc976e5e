//! What the market data feed delivers.

use vstd::prelude::*;

use crate::arithmetic::difference;
use crate::binary64::Binary64;
use crate::decimal::parsed;
use crate::strategy::{number, ZERO};
use crate::text::same_text;

verus! {

/// One side of the best bid and offer, with price and size as decimal text.
#[derive(Debug)]
pub struct WsLevel {
    pub px: String,
    pub sz: String,
    pub n: u32,
}

/// The best bid and offer of a book: the bid first, then the ask.
#[derive(Debug)]
pub struct WsBbo {
    pub coin: String,
    pub time: u64,
    pub bbo: [Option<WsLevel>; 2],
}

/// The balance of one coin, with its amounts as decimal text.
#[derive(Debug)]
pub struct SpotBalance {
    pub coin: String,
    pub token: u32,
    pub total: String,
    pub hold: String,
    pub entry_ntl: String,
}

/// The balances of an account.
#[derive(Debug)]
pub struct SpotState {
    pub balances: Vec<SpotBalance>,
}

/// The state of an account.
#[derive(Debug)]
pub struct WebData2 {
    pub spot_state: SpotState,
}

/// A frame of the connection.
#[derive(Debug)]
pub enum Frame {
    Text(String),
    Close,
    /// A frame that keeps the connection going, or anything else.
    Other,
}

/// What to do with a frame.
#[derive(Debug)]
pub enum Step {
    /// Handle the text.
    Handle(String),
    /// Stop.
    Stop,
    /// Go on to the next frame.
    Skip,
}

/// What a step amounts to.
pub enum NextStep {
    Handle(Seq<char>),
    Stop,
    Skip,
}

impl View for Step {
    type V = NextStep;

    open spec fn view(&self) -> NextStep {
        match *self {
            Step::Handle(text) => NextStep::Handle(text@),
            Step::Stop => NextStep::Stop,
            Step::Skip => NextStep::Skip,
        }
    }
}

/// What to do with a frame.
pub open spec fn next_step(frame: Frame) -> NextStep {
    match frame {
        Frame::Text(text) => NextStep::Handle(text@),
        Frame::Close => NextStep::Stop,
        Frame::Other => NextStep::Skip,
    }
}

/// Decides what to do with a frame: a text is handled, a close ends the connection, and
/// anything else is passed over.
pub fn on_frame(frame: &Frame) -> (r: Step)
    ensures
        r@ == next_step(*frame),
        *frame matches Frame::Text(text) ==> (r matches Step::Handle(handled) && handled@ == text@),
        *frame is Close ==> r is Stop,
        *frame is Other ==> r is Skip,
{
    match frame {
        Frame::Text(text) => Step::Handle(text.clone()),
        Frame::Close => Step::Stop,
        Frame::Other => Step::Skip,
    }
}

/// The channels of the feed.
#[derive(Debug, Clone, Copy)]
pub enum Channel {
    /// Confirms a subscription.
    SubscriptionResponse,
    /// Carries a best bid and offer.
    Bbo,
    /// Carries the state of the account.
    WebData2,
    /// Carries nothing of interest.
    Other,
}

impl Channel {
    /// The channel of the given name.
    pub open spec fn named(name: Seq<char>) -> Channel {
        if name == "subscriptionResponse"@ {
            Channel::SubscriptionResponse
        } else if name == "bbo"@ {
            Channel::Bbo
        } else if name == "webData2"@ {
            Channel::WebData2
        } else {
            Channel::Other
        }
    }

    /// The channel of the given name.
    pub fn of(name: &str) -> (r: Channel)
        ensures
            r == Channel::named(name@),
    {
        if same_text(name, "subscriptionResponse") {
            Channel::SubscriptionResponse
        } else if same_text(name, "bbo") {
            Channel::Bbo
        } else if same_text(name, "webData2") {
            Channel::WebData2
        } else {
            Channel::Other
        }
    }
}

impl WsLevel {
    /// Whether price and size are numbers.
    pub open spec fn numeric(&self) -> bool {
        parsed(self.px@) is Some && parsed(self.sz@) is Some
    }

    /// The price.
    pub open spec fn price(&self) -> Binary64 {
        parsed(self.px@)->0
    }

    /// The size.
    pub open spec fn size(&self) -> Binary64 {
        parsed(self.sz@)->0
    }

    /// Whether price and size are numbers.
    pub fn is_numeric(&self) -> (r: bool)
        ensures
            r == self.numeric(),
    {
        Binary64::parse(self.px.as_str()).is_some() && Binary64::parse(self.sz.as_str()).is_some()
    }
}

/// Where the prices of a book start in a price store: those of HYPE/USDH come first.
pub open spec fn book_offset(coin: Seq<char>) -> int {
    if coin == "@232"@ {
        0
    } else {
        4
    }
}

/// A price store after a best bid and offer: size and price of the bid and size and
/// price of the ask are those of the message. A message that lacks a side changes
/// nothing.
pub open spec fn store_after(store: Seq<Binary64>, bbo: WsBbo) -> Seq<Binary64> {
    match (bbo.bbo@[0], bbo.bbo@[1]) {
        (Some(bid), Some(ask)) => {
            let offset = book_offset(bbo.coin@);
            store.update(offset, bid.size()).update(offset + 1, bid.price()).update(
                offset + 2,
                ask.size(),
            ).update(offset + 3, ask.price())
        },
        _ => store,
    }
}

impl WsBbo {
    /// Whether the numbers that are read from the message are numbers.
    pub open spec fn readable(&self) -> bool {
        match (self.bbo@[0], self.bbo@[1]) {
            (Some(bid), Some(ask)) => bid.numeric() && ask.numeric(),
            _ => true,
        }
    }

    /// Whether the numbers that are read from the message are numbers.
    pub fn is_readable(&self) -> (r: bool)
        ensures
            r == self.readable(),
    {
        match (&self.bbo[0], &self.bbo[1]) {
            (Some(bid), Some(ask)) => bid.is_numeric() && ask.is_numeric(),
            _ => true,
        }
    }
}

/// The number that `text` spells, or zero.
pub open spec fn parsed_or_zero(text: Seq<char>) -> Binary64 {
    match parsed(text) {
        Some(x) => x,
        None => number(ZERO),
    }
}

impl SpotBalance {
    /// What is free to trade: the total without what is on hold.
    pub open spec fn available(&self) -> Binary64 {
        difference(parsed_or_zero(self.total@), parsed_or_zero(self.hold@))
    }

    /// What is free to trade.
    pub fn free(&self) -> (r: Binary64)
        ensures
            r == self.available(),
    {
        let zero = Binary64::from_bits(ZERO);
        let total = match Binary64::parse(self.total.as_str()) {
            Some(x) => x,
            None => zero,
        };
        let hold = match Binary64::parse(self.hold.as_str()) {
            Some(x) => x,
            None => zero,
        };
        total.minus(hold)
    }
}

/// What is free of `coin` according to the last of its entries, or zero.
pub open spec fn last_available(balances: Seq<SpotBalance>, coin: Seq<char>) -> Binary64
    decreases balances.len(),
{
    if balances.len() == 0 {
        number(ZERO)
    } else if balances.last().coin@ == coin {
        balances.last().available()
    } else {
        last_available(balances.drop_last(), coin)
    }
}

/// What is free of `coin`, or zero if it is not among the coins to follow.
pub open spec fn balance_of(
    followed: Seq<Seq<char>>,
    balances: Seq<SpotBalance>,
    coin: Seq<char>,
) -> Binary64 {
    if followed.contains(coin) {
        last_available(balances, coin)
    } else {
        number(ZERO)
    }
}

} // verus!
