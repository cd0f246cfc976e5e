//! The orders that a trade is placed with, and the answers to them.

use vstd::prelude::*;

use crate::binary64::Binary64;
use crate::executor::ArbitrageExecutor;
use crate::decimal::parsed;
use crate::feed::parsed_or_zero;
use crate::settlement::Offload;
use crate::strategy::{number, TradeParams, ZERO};

verus! {

/// The decimals of a HYPE size.
pub const HYPE_SZ_DECIMALS: i32 = 2;

/// Spot assets are numbered from here on.
pub const SPOT_ASSETS: u32 = 10000;

/// A limit order's terms.
#[derive(Debug)]
pub struct Limit {
    /// For how long the order is good.
    pub tif: String,
}

/// The kind of an order.
#[derive(Debug)]
pub enum OrderType {
    Limit(Limit),
}

/// One order.
#[derive(Debug)]
pub struct OrderRequest {
    pub asset: u32,
    pub is_buy: bool,
    pub limit_px: String,
    pub sz: String,
    pub reduce_only: bool,
    pub order_type: OrderType,
    pub cloid: Option<String>,
}

/// Orders that are placed together.
#[derive(Debug)]
pub struct BulkOrder {
    pub orders: Vec<OrderRequest>,
    pub grouping: String,
}

/// A number that is to be written with so many decimals at most.
#[derive(Debug, Clone, Copy)]
pub struct Figure {
    pub value: Binary64,
    pub decimals: i32,
}

/// The numbers of both legs. Sizes are rounded to their decimals; prices are also
/// rounded to the significant digits that the exchange takes.
#[derive(Debug, Clone, Copy)]
pub struct OrderFigures {
    pub buy_size: Figure,
    pub sell_size: Figure,
    pub buy_price: Figure,
    pub sell_price: Figure,
}

/// The numbers of both legs as text.
#[derive(Debug)]
pub struct OrderTexts {
    pub buy_size: String,
    pub sell_size: String,
    pub buy_price: String,
    pub sell_price: String,
}

/// The decimals that a spot price may have, of an asset whose sizes have
/// `sz_decimals`.
pub fn spot_price_decimals(max_decimals_spot: i32, sz_decimals: i32) -> (r: i32)
    requires
        i32::MIN <= max_decimals_spot - sz_decimals <= i32::MAX,
    ensures
        r == max_decimals_spot - sz_decimals,
{
    max_decimals_spot - sz_decimals
}

/// Whether `order` is an immediate-or-cancel limit order on the spot asset
/// `asset_id`.
pub open spec fn is_leg(
    order: OrderRequest,
    asset_id: u32,
    is_buy: bool,
    price: Seq<char>,
    size: Seq<char>,
) -> bool {
    &&& order.asset == SPOT_ASSETS + asset_id
    &&& order.is_buy == is_buy
    &&& order.limit_px@ == price
    &&& order.sz@ == size
    &&& !order.reduce_only
    &&& order.order_type matches OrderType::Limit(limit)
    &&& limit.tif@ == "Ioc"@
    &&& order.cloid is None
}

/// Whether `bulk` buys on one book and sells on the other, in this order and
/// ungrouped.
pub open spec fn is_bulk_order(
    bulk: BulkOrder,
    trade_params: TradeParams,
    texts: OrderTexts,
) -> bool {
    &&& bulk.orders@.len() == 2
    &&& is_leg(
        bulk.orders@[0],
        trade_params.buy_asset_id,
        true,
        texts.buy_price@,
        texts.buy_size@,
    )
    &&& is_leg(
        bulk.orders@[1],
        trade_params.sell_asset_id,
        false,
        texts.sell_price@,
        texts.sell_size@,
    )
    &&& bulk.grouping@ == "na"@
}

/// One leg.
fn leg(asset_id: u32, is_buy: bool, price: &str, size: &str) -> (r: OrderRequest)
    requires
        asset_id <= u32::MAX - SPOT_ASSETS,
    ensures
        is_leg(r, asset_id, is_buy, price@, size@),
{
    OrderRequest {
        asset: SPOT_ASSETS + asset_id,
        is_buy,
        limit_px: price.to_owned(),
        sz: size.to_owned(),
        reduce_only: false,
        order_type: OrderType::Limit(Limit { tif: "Ioc".to_owned() }),
        cloid: None,
    }
}

/// What a text says of a size, or the size itself if it says nothing.
pub open spec fn size_in(text: Seq<char>, size: Binary64) -> Binary64 {
    match parsed(text) {
        Some(x) => x,
        None => size,
    }
}

/// Reads a size.
fn read_size(text: &str, size: Binary64) -> (r: Binary64)
    ensures
        r == size_in(text@, size),
{
    match Binary64::parse(text) {
        Some(x) => x,
        None => size,
    }
}

/// The trade with the sizes that its orders have.
pub fn as_ordered(trade_params: &TradeParams, texts: &OrderTexts) -> (r: TradeParams)
    ensures
        r == ordered_with(*trade_params, *texts),
{
    TradeParams {
        buy_size: read_size(texts.buy_size.as_str(), trade_params.buy_size),
        sell_size: read_size(texts.sell_size.as_str(), trade_params.sell_size),
        ..*trade_params
    }
}

/// The trade with the sizes that its texts say.
pub open spec fn ordered_with(trade_params: TradeParams, texts: OrderTexts) -> TradeParams {
    TradeParams {
        buy_size: size_in(texts.buy_size@, trade_params.buy_size),
        sell_size: size_in(texts.sell_size@, trade_params.sell_size),
        ..trade_params
    }
}

/// The numbers that the orders of a trade need as text.
pub open spec fn figures_of(trade_params: TradeParams, max_decimals_spot: int) -> OrderFigures {
    let price_decimals = (max_decimals_spot - HYPE_SZ_DECIMALS) as i32;
    OrderFigures {
        buy_size: Figure { value: trade_params.buy_size, decimals: HYPE_SZ_DECIMALS },
        sell_size: Figure { value: trade_params.sell_size, decimals: HYPE_SZ_DECIMALS },
        buy_price: Figure { value: trade_params.buy_price, decimals: price_decimals },
        sell_price: Figure { value: trade_params.sell_price, decimals: price_decimals },
    }
}

impl<C> ArbitrageExecutor<C> {
    /// The numbers that the orders of a trade need as text.
    pub fn order_figures(&self, trade_params: &TradeParams, max_decimals_spot: i32) -> (r:
        OrderFigures)
        requires
            max_decimals_spot >= i32::MIN + HYPE_SZ_DECIMALS,
        ensures
            r == figures_of(*trade_params, max_decimals_spot as int),
    {
        let decimals: i32 = spot_price_decimals(max_decimals_spot, HYPE_SZ_DECIMALS);
        OrderFigures {
            buy_size: Figure { value: trade_params.buy_size, decimals: HYPE_SZ_DECIMALS },
            sell_size: Figure { value: trade_params.sell_size, decimals: HYPE_SZ_DECIMALS },
            buy_price: Figure { value: trade_params.buy_price, decimals },
            sell_price: Figure { value: trade_params.sell_price, decimals },
        }
    }

    /// The orders of a trade, with its numbers as text.
    pub fn create_bulk_order(&self, trade_params: &TradeParams, texts: &OrderTexts) -> (r: BulkOrder)
        requires
            trade_params.buy_asset_id <= u32::MAX - SPOT_ASSETS,
            trade_params.sell_asset_id <= u32::MAX - SPOT_ASSETS,
        ensures
            is_bulk_order(r, *trade_params, *texts),
    {
        let mut orders: Vec<OrderRequest> = Vec::new();
        orders.push(
            leg(
                trade_params.buy_asset_id,
                true,
                texts.buy_price.as_str(),
                texts.buy_size.as_str(),
            ),
        );
        orders.push(
            leg(
                trade_params.sell_asset_id,
                false,
                texts.sell_price.as_str(),
                texts.sell_size.as_str(),
            ),
        );
        BulkOrder { orders, grouping: "na".to_owned() }
    }
}

/// The size and the price that the order of an offload needs as text.
pub open spec fn offload_figures(offload: Offload, max_decimals_spot: int) -> (Figure, Figure) {
    (
        Figure { value: offload.size, decimals: HYPE_SZ_DECIMALS },
        Figure {
            value: offload.limit_price,
            decimals: (max_decimals_spot - HYPE_SZ_DECIMALS) as i32,
        },
    )
}

/// Whether `bulk` is the one order of an offload, with its size and price as text.
pub open spec fn is_offload_order(
    bulk: BulkOrder,
    offload: Offload,
    size: Seq<char>,
    price: Seq<char>,
) -> bool {
    &&& bulk.orders@.len() == 1
    &&& is_leg(bulk.orders@[0], offload.asset_id, offload.is_buy, price, size)
    &&& bulk.grouping@ == "na"@
}

impl Offload {
    /// The size and the price that the order needs as text.
    pub fn figures(&self, max_decimals_spot: i32) -> (r: (Figure, Figure))
        requires
            max_decimals_spot >= i32::MIN + HYPE_SZ_DECIMALS,
        ensures
            r == offload_figures(*self, max_decimals_spot as int),
    {
        (
            Figure { value: self.size, decimals: HYPE_SZ_DECIMALS },
            Figure {
                value: self.limit_price,
                decimals: spot_price_decimals(max_decimals_spot, HYPE_SZ_DECIMALS),
            },
        )
    }

    /// The order, with its size and price as text.
    pub fn order(&self, size: &str, price: &str) -> (r: BulkOrder)
        requires
            self.asset_id <= u32::MAX - SPOT_ASSETS,
        ensures
            is_offload_order(r, *self, size@, price@),
    {
        let mut orders: Vec<OrderRequest> = Vec::new();
        orders.push(leg(self.asset_id, self.is_buy, price, size));
        BulkOrder { orders, grouping: "na".to_owned() }
    }
}

/// What became of one order, with what the exchange says of it.
#[derive(Debug)]
pub enum OrderStatus {
    Error(String),
    /// The order was filled, with the amount of HYPE as decimal text.
    Filled { size: String, text: String },
    Other(String),
}

/// The exchange's answer to a bulk order.
#[derive(Debug)]
pub enum OrderResponse {
    /// What became of each order.
    Order(Vec<OrderStatus>),
    /// An answer of another kind.
    Other(String),
}

/// What to report of an answer.
#[derive(Debug)]
pub enum Report {
    /// The order at this place failed.
    Failed(usize, String),
    /// An order was filled.
    Filled(String),
    /// An order has a status that it should not have.
    InvalidStatus(String),
    /// The answer is of another kind.
    Unknown(String),
}

/// Whether `report` is what there is to say of the order at `i`.
pub open spec fn reports(report: Report, i: int, status: OrderStatus) -> bool {
    match (status, report) {
        (OrderStatus::Error(why), Report::Failed(at, text)) => at == i && text@ == why@,
        (OrderStatus::Filled { size: _, text: what }, Report::Filled(text)) => text@ == what@,
        (OrderStatus::Other(what), Report::InvalidStatus(text)) => text@ == what@,
        _ => false,
    }
}

/// Whether `list` holds the reports on an answer: one for each order, in their order, or
/// one for an answer of another kind.
pub open spec fn are_reports(list: Seq<Report>, response: OrderResponse) -> bool {
    match response {
        OrderResponse::Order(statuses) => {
            &&& list.len() == statuses@.len()
            &&& forall|i: int|
                0 <= i < statuses@.len() ==> reports(#[trigger] list[i], i, statuses@[i])
        },
        OrderResponse::Other(what) => {
            &&& list.len() == 1
            &&& list[0] matches Report::Unknown(text)
            &&& text@ == what@
        },
    }
}

/// The reports on an answer: one for each order, in their order.
pub fn review_response(response: &OrderResponse) -> (r: Vec<Report>)
    ensures
        are_reports(r@, *response),
{
    let mut r: Vec<Report> = Vec::new();
    match response {
        OrderResponse::Order(statuses) => {
            let mut i: usize = 0;
            while i < statuses.len()
                invariant
                    i <= statuses@.len(),
                    r@.len() == i,
                    forall|j: int| 0 <= j < i ==> reports(#[trigger] r@[j], j, statuses@[j]),
                decreases statuses@.len() - i,
            {
                let report = match &statuses[i] {
                    OrderStatus::Error(why) => Report::Failed(i, why.clone()),
                    OrderStatus::Filled { size: _, text } => Report::Filled(text.clone()),
                    OrderStatus::Other(what) => Report::InvalidStatus(what.clone()),
                };
                r.push(report);
                i = i + 1;
            }
        },
        OrderResponse::Other(what) => {
            r.push(Report::Unknown(what.clone()));
        },
    }
    r
}

/// The amount of HYPE that the order at `i` filled.
pub open spec fn filled(response: OrderResponse, i: int) -> Binary64 {
    match response {
        OrderResponse::Order(statuses) => if i < statuses@.len() {
            match statuses@[i] {
                OrderStatus::Filled { size, text: _ } => parsed_or_zero(size@),
                _ => number(ZERO),
            }
        } else {
            number(ZERO)
        },
        OrderResponse::Other(_) => number(ZERO),
    }
}

/// The amount of HYPE that the order at `i` filled.
fn filled_at(response: &OrderResponse, i: usize) -> (r: Binary64)
    ensures
        r == filled(*response, i as int),
{
    let zero = Binary64::from_bits(ZERO);
    match response {
        OrderResponse::Order(statuses) => if i < statuses.len() {
            match &statuses[i] {
                OrderStatus::Filled { size, text: _ } => read_size(size.as_str(), zero),
                _ => zero,
            }
        } else {
            zero
        },
        OrderResponse::Other(_) => zero,
    }
}

/// The amounts of HYPE that the two legs of a trade bought and sold.
pub open spec fn fills_in(response: OrderResponse) -> (Binary64, Binary64) {
    (filled(response, 0), filled(response, 1))
}

/// The amounts of HYPE that the two legs of a trade bought and sold.
pub fn fills(response: &OrderResponse) -> (r: (Binary64, Binary64))
    ensures
        r == fills_in(*response),
{
    (filled_at(response, 0), filled_at(response, 1))
}

} // verus!
