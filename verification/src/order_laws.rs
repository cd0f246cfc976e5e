//! Laws of the orders and of the answers to them.

use vstd::prelude::*;

use crate::decimal::parsed;
use crate::orders::{
    are_reports, figures_of, filled, fills_in, is_bulk_order, is_offload_order, offload_figures,
    ordered_with, BulkOrder, OrderRequest, OrderResponse, OrderStatus, OrderTexts, OrderType,
    Report,
};
use crate::settlement::Offload;
use crate::strategy::TradeParams;

verus! {

/// Whether an order is immediate-or-cancel and nothing out of the ordinary.
pub open spec fn is_plain_limit_order(order: OrderRequest) -> bool {
    &&& order.order_type matches OrderType::Limit(limit)
    &&& limit.tif@ == seq!['I', 'o', 'c']
    &&& !order.reduce_only
    &&& order.cloid is None
}

/// The bulk order of any trade is a buy and a sale, in this order and ungrouped. The buy
/// is on the buying asset at the text of the buying price for the text of the buying
/// size, and the sale on the selling asset at the text of the selling price for the text
/// of the selling size. Spot assets are numbered from 10000 on.
pub proof fn law_each_leg_has_its_own_price_and_size(
    bulk: BulkOrder,
    t: TradeParams,
    texts: OrderTexts,
)
    requires
        is_bulk_order(bulk, t, texts),
    ensures
        bulk.orders@.len() == 2,
        bulk.orders@[0].is_buy,
        bulk.orders@[0].asset == 10000 + t.buy_asset_id,
        bulk.orders@[0].limit_px@ == texts.buy_price@,
        bulk.orders@[0].sz@ == texts.buy_size@,
        is_plain_limit_order(bulk.orders@[0]),
        !bulk.orders@[1].is_buy,
        bulk.orders@[1].asset == 10000 + t.sell_asset_id,
        bulk.orders@[1].limit_px@ == texts.sell_price@,
        bulk.orders@[1].sz@ == texts.sell_size@,
        is_plain_limit_order(bulk.orders@[1]),
        bulk.grouping@ == seq!['n', 'a'],
{
    reveal_strlit("Ioc");
    reveal_strlit("na");
    assert("Ioc"@ == seq!['I', 'o', 'c']);
    assert("na"@ == seq!['n', 'a']);
}

/// The order of an offload is one order on its asset and in its direction, at the text of
/// its price for the text of its size.
pub proof fn law_offload_order_is_one_leg(
    bulk: BulkOrder,
    offload: Offload,
    size: Seq<char>,
    price: Seq<char>,
)
    requires
        is_offload_order(bulk, offload, size, price),
    ensures
        bulk.orders@.len() == 1,
        bulk.orders@[0].is_buy == offload.is_buy,
        bulk.orders@[0].asset == 10000 + offload.asset_id,
        bulk.orders@[0].limit_px@ == price,
        bulk.orders@[0].sz@ == size,
        is_plain_limit_order(bulk.orders@[0]),
        bulk.grouping@ == seq!['n', 'a'],
{
    reveal_strlit("Ioc");
    reveal_strlit("na");
    assert("Ioc"@ == seq!['I', 'o', 'c']);
    assert("na"@ == seq!['n', 'a']);
}

/// Each text is to be made of the number that it is named after. Sizes have two decimals,
/// and prices what those leave of the decimals that there are in all.
pub proof fn law_figures_are_those_of_the_trade(t: TradeParams, decimals: int)
    requires
        i32::MIN + 2 <= decimals <= i32::MAX,
    ensures
        ({
            let figures = figures_of(t, decimals);
            &&& figures.buy_size.value == t.buy_size && figures.buy_size.decimals == 2
            &&& figures.sell_size.value == t.sell_size && figures.sell_size.decimals == 2
            &&& figures.buy_price.value == t.buy_price && figures.buy_price.decimals + 2
                == decimals
            &&& figures.sell_price.value == t.sell_price && figures.sell_price.decimals + 2
                == decimals
        }),
{
}

/// The texts of an offload are to be made of its size and its worst price.
pub proof fn law_figures_are_those_of_the_offload(offload: Offload, decimals: int)
    requires
        i32::MIN + 2 <= decimals <= i32::MAX,
    ensures
        ({
            let (size, price) = offload_figures(offload, decimals);
            &&& size.value == offload.size && size.decimals == 2
            &&& price.value == offload.limit_price && price.decimals + 2 == decimals
        }),
{
}

/// A trade as ordered has the sizes that its texts spell, each from its own text, and is
/// otherwise the same. A text that spells no number leaves its size alone.
pub proof fn law_ordered_sizes_are_those_of_the_texts(t: TradeParams, texts: OrderTexts)
    ensures
        ({
            let ordered = ordered_with(t, texts);
            &&& parsed(texts.buy_size@) matches Some(x) ==> ordered.buy_size == x
            &&& parsed(texts.buy_size@) is None ==> ordered.buy_size == t.buy_size
            &&& parsed(texts.sell_size@) matches Some(x) ==> ordered.sell_size == x
            &&& parsed(texts.sell_size@) is None ==> ordered.sell_size == t.sell_size
            &&& ordered.buy_asset_id == t.buy_asset_id && ordered.sell_asset_id == t.sell_asset_id
            &&& ordered.buy_price == t.buy_price && ordered.sell_price == t.sell_price
            &&& ordered.expected_profit_usd == t.expected_profit_usd
        }),
{
}

/// An order that was filled counts for the size that its status spells, and every other
/// order for nothing.
pub proof fn law_only_filled_orders_count(statuses: Vec<OrderStatus>, i: int)
    requires
        0 <= i < statuses@.len(),
    ensures
        ({
            let amount = filled(OrderResponse::Order(statuses), i);
            match statuses@[i] {
                OrderStatus::Filled { size, .. } => match parsed(size@) {
                    Some(x) => amount == x,
                    None => amount.bits == 0,
                },
                OrderStatus::Error(_) => amount.bits == 0,
                OrderStatus::Other(_) => amount.bits == 0,
            }
        }),
{
}

/// What was bought is what the first order filled, and what was sold is what the second
/// one filled. An order without a status filled nothing.
pub proof fn law_first_order_buys_and_second_sells(response: OrderResponse)
    ensures
        response matches OrderResponse::Order(statuses) ==> {
            &&& statuses@.len() >= 1 ==> fills_in(response).0 == filled(response, 0)
            &&& statuses@.len() >= 2 ==> fills_in(response).1 == filled(response, 1)
            &&& statuses@.len() < 1 ==> fills_in(response).0.bits == 0
            &&& statuses@.len() < 2 ==> fills_in(response).1.bits == 0
        },
        response is Other ==> fills_in(response).0.bits == 0 && fills_in(response).1.bits == 0,
{
}

/// Every order is reported on in its place: a failed one as failed at that place, a
/// filled one as filled, and any other as invalid, each with what the exchange said. An
/// answer of another kind gives one report.
pub proof fn law_each_order_has_its_report(list: Seq<Report>, response: OrderResponse, i: int)
    requires
        are_reports(list, response),
    ensures
        response matches OrderResponse::Order(statuses) ==> list.len() == statuses@.len() && (0 <= i
            < statuses@.len() ==> match statuses@[i] {
            OrderStatus::Error(why) => list[i] matches Report::Failed(at, text) && at == i && text@
                == why@,
            OrderStatus::Filled { size: _, text: what } => list[i] matches Report::Filled(text)
                && text@ == what@,
            OrderStatus::Other(what) => list[i] matches Report::InvalidStatus(text) && text@
                == what@,
        }),
        response matches OrderResponse::Other(what) ==> list.len() == 1 && (
        list[0] matches Report::Unknown(text) && text@ == what@),
{
}

} // verus!
