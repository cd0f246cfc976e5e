//! Laws of what comes in from the feed and of what is asked of it.

use vstd::prelude::*;

use crate::arithmetic::difference;
use crate::binary64::Binary64;
use crate::client::{
    balances_in, reaction_to, requests, state_after, state_settled, ClientState, Message, Reaction,
};
use crate::decimal::parsed;
use crate::executor::{attempt_on, conversion_due};
use crate::feed::{balance_of, last_available, store_after, Channel, SpotBalance, WebData2, WsBbo};
use crate::subscription::{bbo_request, escaped, escaped_char, json_string, web_data_request};
use crate::text::texts;

verus! {

/// A list of texts is taken as it stands.
pub proof fn law_texts_of_a_list(list: Seq<String>, i: int)
    requires
        0 <= i < list.len(),
    ensures
        texts(list).len() == list.len(),
        texts(list)[i] == list[i]@,
{
}

/// A best bid and offer of "@232" sets the first four entries of a store, and one of any
/// other coin the last four: size and price of the bid, then size and price of the ask,
/// each as its own text spells it. The other four entries stay.
pub proof fn law_best_bid_and_offer_sets_its_book(store: Seq<Binary64>, bbo: WsBbo, i: int)
    requires
        store.len() == 8,
        bbo.readable(),
        0 <= i < 8,
    ensures
        store_after(store, bbo).len() == 8,
        bbo.bbo@[0] matches Some(bid) ==> (bbo.bbo@[1] matches Some(ask) ==> {
            let at: int = if bbo.coin@ == seq!['@', '2', '3', '2'] {
                0
            } else {
                4
            };
            let after = store_after(store, bbo);
            &&& parsed(bid.sz@) == Some(after[at])
            &&& parsed(bid.px@) == Some(after[at + 1])
            &&& parsed(ask.sz@) == Some(after[at + 2])
            &&& parsed(ask.px@) == Some(after[at + 3])
            &&& i < at || at + 4 <= i ==> after[i] == store[i]
        }),
        bbo.bbo@[0] is None || bbo.bbo@[1] is None ==> store_after(store, bbo) == store,
{
    reveal_strlit("@232");
    assert("@232"@ == seq!['@', '2', '3', '2']);
}

/// A best bid and offer is readable exactly if it lacks a side or all four of its texts
/// spell numbers.
pub proof fn law_readable_means_four_numbers(bbo: WsBbo)
    ensures
        bbo.readable() <==> (bbo.bbo@[0] matches Some(bid) ==> (bbo.bbo@[1] matches Some(ask) ==> {
            &&& parsed(bid.sz@) is Some
            &&& parsed(bid.px@) is Some
            &&& parsed(ask.sz@) is Some
            &&& parsed(ask.px@) is Some
        })),
{
}

/// Each channel goes by one name, and everything else is another channel.
pub proof fn law_channels_go_by_their_names(name: Seq<char>)
    ensures
        Channel::named(name) is SubscriptionResponse <==> name == "subscriptionResponse"@,
        Channel::named(name) is Bbo <==> name == seq!['b', 'b', 'o'],
        Channel::named(name) is WebData2 <==> name == seq![
            'w',
            'e',
            'b',
            'D',
            'a',
            't',
            'a',
            '2',
        ],
{
    reveal_strlit("subscriptionResponse");
    reveal_strlit("bbo");
    reveal_strlit("webData2");
    assert("bbo"@ == seq!['b', 'b', 'o']);
    assert("webData2"@ == seq!['w', 'e', 'b', 'D', 'a', 't', 'a', '2']);
    assert("subscriptionResponse"@.len() == 20);
}

/// What is free of a balance is its total less what is on hold, where a text that spells
/// no number counts as zero.
pub proof fn law_free_is_total_less_hold(balance: SpotBalance)
    ensures
        ({
            let zero = Binary64 { bits: 0 };
            let free = balance.available();
            match (parsed(balance.total@), parsed(balance.hold@)) {
                (Some(total), Some(hold)) => free == difference(total, hold),
                (Some(total), None) => free == difference(total, zero),
                (None, Some(hold)) => free == difference(zero, hold),
                (None, None) => free == difference(zero, zero),
            }
        }),
{
}

proof fn lemma_last_entry(balances: Seq<SpotBalance>, coin: Seq<char>, at: int)
    requires
        -1 <= at < balances.len(),
        at >= 0 ==> balances[at].coin@ == coin,
        forall|j: int| at < j < balances.len() ==> (#[trigger] balances[j]).coin@ != coin,
    ensures
        at >= 0 ==> last_available(balances, coin) == balances[at].available(),
        at < 0 ==> last_available(balances, coin).bits == 0,
    decreases balances.len(),
{
    if balances.len() > 0 && at < balances.len() - 1 {
        assert(balances.last().coin@ != coin);
        assert forall|j: int| at < j < balances.drop_last().len() implies (
        #[trigger] balances.drop_last()[j]).coin@ != coin by {
            assert(balances.drop_last()[j] == balances[j]);
        }
        lemma_last_entry(balances.drop_last(), coin, at);
    }
}

/// Of a coin that is followed, the last entry counts, at whatever place it is; if there
/// is no entry, or the coin is not followed, the balance is zero.
pub proof fn law_balance_is_that_of_the_last_entry(
    followed: Seq<Seq<char>>,
    balances: Seq<SpotBalance>,
    coin: Seq<char>,
    at: int,
)
    requires
        -1 <= at < balances.len(),
        at >= 0 ==> balances[at].coin@ == coin,
        forall|j: int| at < j < balances.len() ==> (#[trigger] balances[j]).coin@ != coin,
    ensures
        followed.contains(coin) && at >= 0 ==> balance_of(followed, balances, coin)
            == balances[at].available(),
        !followed.contains(coin) || at < 0 ==> balance_of(followed, balances, coin).bits == 0,
{
    lemma_last_entry(balances, coin, at);
}

/// The three balances are those of the coins that they are named after.
pub proof fn law_balances_are_those_of_their_coins(followed: Seq<Seq<char>>, web_data: WebData2)
    ensures
        ({
            let list = web_data.spot_state.balances@;
            let r = balances_in(followed, web_data);
            &&& r.usdc == balance_of(followed, list, seq!['U', 'S', 'D', 'C'])
            &&& r.usdh == balance_of(followed, list, seq!['U', 'S', 'D', 'H'])
            &&& r.hype == balance_of(followed, list, seq!['H', 'Y', 'P', 'E'])
        }),
{
    reveal_strlit("USDC");
    reveal_strlit("USDH");
    reveal_strlit("HYPE");
    assert("USDC"@ == seq!['U', 'S', 'D', 'C']);
    assert("USDH"@ == seq!['U', 'S', 'D', 'H']);
    assert("HYPE"@ == seq!['H', 'Y', 'P', 'E']);
}

/// Entries of other coins have no bearing on a balance: with one put in at any place, all
/// balances are as before.
pub proof fn law_other_coins_have_no_bearing(
    followed: Seq<Seq<char>>,
    balances: Seq<SpotBalance>,
    entry: SpotBalance,
    at: int,
    coin: Seq<char>,
)
    requires
        0 <= at <= balances.len(),
        entry.coin@ != coin,
    ensures
        balance_of(followed, balances.insert(at, entry), coin) == balance_of(
            followed,
            balances,
            coin,
        ),
    decreases balances.len(),
{
    let longer = balances.insert(at, entry);
    if at == balances.len() {
        assert(longer.last() == entry);
        assert(longer.drop_last() == balances);
    } else {
        assert(longer.last() == balances.last());
        assert(longer.drop_last() == balances.drop_last().insert(at, entry));
        law_other_coins_have_no_bearing(followed, balances.drop_last(), entry, at, coin);
    }
}

/// A best bid and offer replaces the prices of client and executor and may make the
/// executor busy; it touches neither balances nor settings. The attempt that follows sees
/// the new prices.
pub proof fn law_best_bid_and_offer_leads_to_an_attempt(
    state: ClientState,
    followed: Seq<Seq<char>>,
    bbo: WsBbo,
)
    ensures
        ({
            let message = Message::Bbo(bbo);
            let after = state_after(state, followed, message);
            let attempt = attempt_on(
                state.settings,
                state.executing,
                store_after(state.prices, bbo),
                state.balances,
            );
            &&& reaction_to(state, followed, message) == Reaction::Attempted(attempt)
            &&& after.prices == store_after(state.prices, bbo)
            &&& after.executor_prices == after.prices
            &&& after.balances == state.balances
            &&& after.settings == state.settings
            &&& after.due == state.due
            &&& after.executing <==> state.executing || attempt is Place
        }),
{
}

/// The state of the account replaces the balances and nothing else but what is due. It is
/// answered with the new balances and the conversion that is due.
pub proof fn law_account_replaces_the_balances(
    state: ClientState,
    followed: Seq<Seq<char>>,
    web_data: WebData2,
)
    ensures
        ({
            let message = Message::WebData2(Some(web_data));
            let after = state_after(state, followed, message);
            let balances = balances_in(followed, web_data);
            &&& reaction_to(state, followed, message) == (Reaction::Balances {
                balances,
                conversion: conversion_due(state.due, state.executing, balances),
            })
            &&& after.balances == balances
            &&& after.prices == state.prices
            &&& after.executor_prices == state.executor_prices
            &&& after.settings == state.settings
            &&& after.executing == state.executing
            &&& after.due <==> state.due && state.executing
        }),
{
}

/// Any other message changes nothing, and only a confirmed subscription is answered.
pub proof fn law_other_messages_change_nothing(
    state: ClientState,
    followed: Seq<Seq<char>>,
    message: Message,
)
    requires
        !(message is Bbo),
        !(message matches Message::WebData2(web_data) && web_data is Some),
    ensures
        state_after(state, followed, message) == state,
        reaction_to(state, followed, message) is Confirmed <==> message is SubscriptionResponse,
        reaction_to(state, followed, message) is Ignored <==> !(message is SubscriptionResponse),
{
}

/// Settling frees the executor and makes a conversion due, and changes nothing else.
pub proof fn law_settling_frees_the_executor(state: ClientState)
    ensures
        !state_settled(state).executing,
        state_settled(state).due,
        state_settled(state).prices == state.prices,
        state_settled(state).executor_prices == state.executor_prices,
        state_settled(state).balances == state.balances,
        state_settled(state).settings == state.settings,
{
}

/// There is one request for each book, at its place, and one more for the account at the
/// end.
pub proof fn law_every_book_and_the_account_are_asked_for(
    coins: Seq<Seq<char>>,
    user: Seq<char>,
    i: int,
)
    requires
        0 <= i < coins.len(),
    ensures
        requests(coins, user).len() == coins.len() + 1,
        requests(coins, user)[i] == bbo_request(coins[i]),
        requests(coins, user)[coins.len() as int] == web_data_request(user),
{
}

/// A request is the same text for every coin, and for every account, but for the name in
/// it, which stands in it as a JSON string.
pub proof fn law_requests_differ_in_the_name_only(name: Seq<char>)
    ensures
        bbo_request(name)
            == "{\"method\":\"subscribe\",\"subscription\":{\"coin\":\""@ + escaped(name)
            + "\",\"type\":\"bbo\"}}"@,
        web_data_request(name)
            == "{\"method\":\"subscribe\",\"subscription\":{\"type\":\"webData2\",\"user\":\""@
            + escaped(name) + "\"}}"@,
{
    reveal_strlit("{\"method\":\"subscribe\",\"subscription\":{\"coin\":");
    reveal_strlit("{\"method\":\"subscribe\",\"subscription\":{\"coin\":\"");
    reveal_strlit(",\"type\":\"bbo\"}}");
    reveal_strlit("\",\"type\":\"bbo\"}}");
    reveal_strlit("{\"method\":\"subscribe\",\"subscription\":{\"type\":\"webData2\",\"user\":");
    reveal_strlit("{\"method\":\"subscribe\",\"subscription\":{\"type\":\"webData2\",\"user\":\"");
    reveal_strlit("}}");
    reveal_strlit("\"}}");
    assert(bbo_request(name)
        == "{\"method\":\"subscribe\",\"subscription\":{\"coin\":\""@ + escaped(name)
        + "\",\"type\":\"bbo\"}}"@);
    assert(web_data_request(name)
        == "{\"method\":\"subscribe\",\"subscription\":{\"type\":\"webData2\",\"user\":\""@
        + escaped(name) + "\"}}"@);
}

/// A JSON string is the escaped text between quotes, and texts are escaped piece by piece.
pub proof fn law_json_strings_are_made_piece_by_piece(one: Seq<char>, two: Seq<char>)
    ensures
        escaped(one + two) == escaped(one) + escaped(two),
        escaped(Seq::empty()) == Seq::<char>::empty(),
        json_string(one).len() == escaped(one).len() + 2,
        json_string(one).first() == '"',
        json_string(one).last() == '"',
        json_string(one).subrange(1, json_string(one).len() - 1) == escaped(one),
    decreases two.len(),
{
    if two.len() == 0 {
        assert(one + two == one);
        assert(escaped(one) + escaped(two) == escaped(one));
    } else {
        law_json_strings_are_made_piece_by_piece(one, two.drop_last());
        assert((one + two).drop_last() == one + two.drop_last());
        assert((one + two).last() == two.last());
        assert(escaped(one) + escaped(two.drop_last()) + escaped_char(two.last()) == escaped(one)
            + (escaped(two.drop_last()) + escaped_char(two.last())));
    }
    assert(json_string(one).subrange(1, json_string(one).len() - 1) == escaped(one));
}

/// Every character but the quote, the backslash and the control characters stands for
/// itself; the quote and the backslash have a backslash before them; and a control
/// character stands as a letter or a hexadecimal number behind a backslash.
pub proof fn law_characters_are_escaped_if_need_be(c: char, i: int)
    requires
        0 <= i < escaped_char(c).len(),
    ensures
        escaped(seq![c]) == escaped_char(c),
        c as int >= 32 && c != '"' && c != '\\' ==> escaped_char(c) == seq![c],
        c == '"' || c == '\\' ==> escaped_char(c) == seq!['\\', c],
        c as int == 8 ==> escaped_char(c) == seq!['\\', 'b'],
        c as int == 9 ==> escaped_char(c) == seq!['\\', 't'],
        c as int == 10 ==> escaped_char(c) == seq!['\\', 'n'],
        c as int == 12 ==> escaped_char(c) == seq!['\\', 'f'],
        c as int == 13 ==> escaped_char(c) == seq!['\\', 'r'],
        (c as int) < 8 || c as int == 11 ==> escaped_char(c) == seq![
            '\\',
            'u',
            '0',
            '0',
            '0',
            if c as int == 11 {
                'b'
            } else {
                (c as int + 48) as char
            },
        ],
        c as int == 14 || c as int == 15 ==> escaped_char(c) == seq![
            '\\',
            'u',
            '0',
            '0',
            '0',
            (c as int + 87) as char,
        ],
        16 <= c as int && (c as int) < 32 ==> escaped_char(c) == seq![
            '\\',
            'u',
            '0',
            '0',
            '1',
            (c as int + if c as int <= 25 {
                32int
            } else {
                71int
            }) as char,
        ],
        escaped_char(c)[i] as int >= 32,
{
    reveal_with_fuel(escaped, 2);
    assert(seq![c].drop_last() == Seq::<char>::empty());
    assert(seq![c].last() == c);
    assert(Seq::<char>::empty() + escaped_char(c) == escaped_char(c));
}

} // verus!
